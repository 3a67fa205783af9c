use vstd::prelude::*;

use crate::color::Color;

verus! {

/// The lowercase letter for one base-26 digit.
pub open spec fn letter(d: nat) -> char {
    if d == 0 {
        'a'
    } else if d == 1 {
        'b'
    } else if d == 2 {
        'c'
    } else if d == 3 {
        'd'
    } else if d == 4 {
        'e'
    } else if d == 5 {
        'f'
    } else if d == 6 {
        'g'
    } else if d == 7 {
        'h'
    } else if d == 8 {
        'i'
    } else if d == 9 {
        'j'
    } else if d == 10 {
        'k'
    } else if d == 11 {
        'l'
    } else if d == 12 {
        'm'
    } else if d == 13 {
        'n'
    } else if d == 14 {
        'o'
    } else if d == 15 {
        'p'
    } else if d == 16 {
        'q'
    } else if d == 17 {
        'r'
    } else if d == 18 {
        's'
    } else if d == 19 {
        't'
    } else if d == 20 {
        'u'
    } else if d == 21 {
        'v'
    } else if d == 22 {
        'w'
    } else if d == 23 {
        'x'
    } else if d == 24 {
        'y'
    } else {
        'z'
    }
}

/// The class name for the `i`-th distinct style: base-26, little-endian,
/// so 0 is `a`, 25 is `z`, 26 is `ab`, 27 is `bb`.
pub open spec fn base26(i: nat) -> Seq<char>
    decreases i,
{
    seq![letter(i % 26)] + if i / 26 == 0 {
        Seq::<char>::empty()
    } else {
        base26(i / 26)
    }
}

/// Index of the first occurrence of `key`, or -1 when it is absent.
pub open spec fn find_style(styles: Seq<(Color, bool)>, key: (Color, bool)) -> int
    decreases styles.len(),
{
    if styles.len() == 0 {
        -1
    } else if styles[0] == key {
        0
    } else {
        let r = find_style(styles.drop_first(), key);
        if r == -1 {
            -1
        } else {
            r + 1
        }
    }
}

pub proof fn lemma_find_style_bounds(styles: Seq<(Color, bool)>, key: (Color, bool))
    ensures
        -1 <= find_style(styles, key) < styles.len(),
        find_style(styles, key) >= 0 ==> styles[find_style(styles, key)] == key,
        find_style(styles, key) == -1 <==> !styles.contains(key),
    decreases styles.len(),
{
    if styles.len() > 0 && styles[0] != key {
        lemma_find_style_bounds(styles.drop_first(), key);
        if find_style(styles.drop_first(), key) == -1 {
            assert(forall|i: int|
                1 <= i < styles.len() ==> styles[i] == styles.drop_first()[i - 1]);
        }
    }
}

/// The class name the dictionary hands out for `key`, and the dictionary
/// afterwards: a fresh key is appended and named after its index.
pub open spec fn styles_get(styles: Seq<(Color, bool)>, key: (Color, bool)) -> (Seq<char>, Seq<
    (Color, bool),
>) {
    let i = find_style(styles, key);
    if i >= 0 {
        (base26(i as nat), styles)
    } else {
        (base26(styles.len()), styles.push(key))
    }
}

/// The style dictionary: distinct `(color, bold)` pairs in the order they
/// were first observed; the class name of a pair is the base-26 word for
/// its index.
pub struct Styles {
    pub known: Vec<(Color, bool)>,
}

impl View for Styles {
    type V = Seq<(Color, bool)>;

    open spec fn view(&self) -> Seq<(Color, bool)> {
        self.known@
    }
}

impl Styles {
    pub fn new() -> (r: Self)
        ensures
            r@ == Seq::<(Color, bool)>::empty(),
    {
        let r = Styles { known: Vec::new() };
        proof {
            assert(r@ =~= Seq::<(Color, bool)>::empty());
        }
        r
    }

    /// The class name for `(color, bold)`, assigning the next base-26 word
    /// on first observation and answering stably thereafter.
    pub fn with(&mut self, color: Color, bold: bool) -> (name: String)
        ensures
            name@ == styles_get(old(self)@, (color, bold)).0,
            final(self)@ == styles_get(old(self)@, (color, bold)).1,
    {
        let key = (color, bold);
        let mut i: usize = 0;
        let mut found: bool = false;
        while i < self.known.len() && !found
            invariant
                i <= self.known@.len(),
                self == old(self),
                key == (color, bold),
                found ==> i < self.known@.len() && self.known@[i as int] == key
                    && find_style(self.known@, key) == i,
                !found ==> forall|j: int| 0 <= j < i ==> self.known@[j] != key,
            decreases self.known@.len() - i + (if found { 0int } else { 1int }),
        {
            let (c, b) = self.known[i];
            if c == color && b == bold {
                found = true;
                proof {
                    assert(self.known@[i as int] == (c, b) && (c, b) == key);
                    lemma_find_style_prefix(self.known@, key, i as int);
                }
            } else {
                proof {
                    assert(self.known@[i as int] == (c, b));
                }
                i += 1;
            }
        }
        proof {
            lemma_find_style_bounds(self.known@, key);
            if !found {
                assert(forall|j: int| 0 <= j < self.known@.len() ==> self.known@[j] != key);
                assert(!self.known@.contains(key)) by {
                    if self.known@.contains(key) {
                        let w = choose|w: int|
                            0 <= w < self.known@.len() && self.known@[w] == key;
                        assert(self.known@[w] != key);
                    }
                }
            }
        }
        let idx: usize = if found {
            i
        } else {
            let n = self.known.len();
            self.known.push(key);
            n
        };
        class_name(idx)
    }
}

/// No occurrence of `key` before `at` and one at `at` pins the first
/// occurrence down.
proof fn lemma_find_style_prefix(styles: Seq<(Color, bool)>, key: (Color, bool), at: int)
    requires
        0 <= at < styles.len(),
        styles[at] == key,
        forall|j: int| 0 <= j < at ==> styles[j] != key,
    ensures
        find_style(styles, key) == at,
    decreases styles.len(),
{
    if styles[0] != key {
        assert(forall|i: int|
            1 <= i < styles.len() ==> styles[i] == styles.drop_first()[i - 1]);
        lemma_find_style_prefix(styles.drop_first(), key, at - 1);
    }
}

/// The base-26 word for `idx`.
pub(crate) fn class_name(idx: usize) -> (name: String)
    ensures
        name@ == base26(idx as nat),
{
    let mut digits: Vec<char> = Vec::new();
    let mut cur: usize = idx;
    loop
        invariant_except_break
            base26(idx as nat) =~= digits@ + base26(cur as nat),
        ensures
            digits@ =~= base26(idx as nat),
        decreases cur,
    {
        digits.push(letter_char(cur % 26));
        cur = cur / 26;
        if cur == 0 {
            break;
        }
    }
    crate::strutil::string_from_chars(&digits)
}

fn letter_char(d: usize) -> (r: char)
    requires
        d < 26,
    ensures
        r == letter(d as nat),
{
    match d {
        0usize => 'a',
        1usize => 'b',
        2usize => 'c',
        3usize => 'd',
        4usize => 'e',
        5usize => 'f',
        6usize => 'g',
        7usize => 'h',
        8usize => 'i',
        9usize => 'j',
        10usize => 'k',
        11usize => 'l',
        12usize => 'm',
        13usize => 'n',
        14usize => 'o',
        15usize => 'p',
        16usize => 'q',
        17usize => 'r',
        18usize => 's',
        19usize => 't',
        20usize => 'u',
        21usize => 'v',
        22usize => 'w',
        23usize => 'x',
        24usize => 'y',
        _ => 'z',
    }
}

/// A class name is never empty.
pub proof fn lemma_base26_nonempty(i: nat)
    ensures
        base26(i).len() >= 1,
    decreases i,
{
}

/// Distinct style indices always receive distinct class names: the
/// base-26 naming scheme never reuses a word.
pub proof fn lemma_base26_injective(i: nat, j: nat)
    requires
        i != j,
    ensures
        base26(i) != base26(j),
    decreases i + j,
{
    assert(forall|d1: nat, d2: nat|
        d1 < 26 && d2 < 26 && d1 != d2 ==> letter(d1) != letter(d2));
    vstd::arithmetic::div_mod::lemma_fundamental_div_mod(i as int, 26);
    vstd::arithmetic::div_mod::lemma_fundamental_div_mod(j as int, 26);
    if base26(i) == base26(j) {
        assert(base26(i)[0] == letter(i % 26));
        assert(base26(j)[0] == letter(j % 26));
        assert(i % 26 == j % 26);
        if i / 26 == 0 && j / 26 == 0 {
        } else if i / 26 == 0 {
            lemma_base26_nonempty(j / 26);
            assert(base26(i).len() == 1);
            assert(base26(j).len() >= 2);
        } else if j / 26 == 0 {
            lemma_base26_nonempty(i / 26);
            assert(base26(i).len() >= 2);
            assert(base26(j).len() == 1);
        } else {
            if i / 26 == j / 26 {
            } else {
                lemma_base26_injective(i / 26, j / 26);
                assert(base26(i).drop_first() =~= base26(i / 26));
                assert(base26(j).drop_first() =~= base26(j / 26));
            }
        }
    }
}



proof fn lemma_find_style_push_absent(s: Seq<(Color, bool)>, key: (Color, bool))
    requires
        find_style(s, key) == -1,
    ensures
        find_style(s.push(key), key) == s.len(),
    decreases s.len(),
{
    if s.len() == 0 {
        assert(s.push(key)[0] == key);
        assert(find_style(s.push(key), key) == 0);
    } else {
        assert(s.push(key)[0] == s[0]);
        assert(s.push(key).drop_first() =~= s.drop_first().push(key));
        lemma_find_style_bounds(s.drop_first(), key);
        lemma_find_style_push_absent(s.drop_first(), key);
    }
}

proof fn lemma_find_style_push_other(s: Seq<(Color, bool)>, key: (Color, bool), other: (Color, bool))
    requires
        find_style(s, key) >= 0,
    ensures
        find_style(s.push(other), key) == find_style(s, key),
    decreases s.len(),
{
    if s.len() > 0 {
        assert(s.push(other)[0] == s[0]);
        if s[0] != key {
            assert(s.push(other).drop_first() =~= s.drop_first().push(other));
            lemma_find_style_push_other(s.drop_first(), key, other);
        }
    }
}

/// The style dictionary's law: asking for a pair only ever appends that
/// pair, an assigned name never changes afterwards — neither by asking
/// again nor by any later observation — and names never collide, since
/// entry `i` is always named the `i`-th base-26 word. So after `N`
/// distinct pairs have been observed, in whatever order, the assigned
/// names are exactly the first `N` base-26 words.
pub proof fn lemma_style_dictionary(styles: Seq<(Color, bool)>, key: (Color, bool), other: (Color, bool))
    ensures
        styles_get(styles, key).1 == styles || styles_get(styles, key).1 == styles.push(key),
        styles_get(styles_get(styles, key).1, key).0 == styles_get(styles, key).0,
        find_style(styles, key) >= 0 ==> styles_get(styles.push(other), key).0 == styles_get(
            styles,
            key,
        ).0,
        forall|i: nat, j: nat| i != j ==> base26(i) != base26(j),
{
    lemma_find_style_bounds(styles, key);
    let f = find_style(styles, key);
    if f == -1 {
        lemma_find_style_push_absent(styles, key);
    } else {
        lemma_find_style_push_other(styles, key, other);
    }
    assert forall|i: nat, j: nat| i != j implies base26(i) != base26(j) by {
        lemma_base26_injective(i, j);
    }
}

} // verus!