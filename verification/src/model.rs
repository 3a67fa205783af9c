use vstd::prelude::*;
use vstd::string::{StrSliceExecFns, StringExecFns};

verus! {

/// An instrumentation mode: the dynamic UB interpreter, the address
/// sanitizer, or a plain build or check run.
#[derive(Clone, Copy, Debug, PartialEq, Eq, Structural)]
pub enum Tool {
    Miri,
    Asan,
    Build,
    Check,
}

/// The short name a tool goes by in storage keys and configuration.
pub open spec fn spec_tool_name(t: Tool) -> Seq<char> {
    match t {
        Tool::Miri => "miri"@,
        Tool::Asan => "asan"@,
        Tool::Build => "build"@,
        Tool::Check => "check"@,
    }
}

/// A semantic version that parsed: numeric triple plus the pre-release
/// and build-metadata identifier strings (empty when absent).
#[derive(Clone, Debug)]
pub struct SemVer {
    pub major: u64,
    pub minor: u64,
    pub patch: u64,
    pub pre: String,
    pub build: String,
}

/// A package version: a parsed semantic version, or the original text
/// when it does not parse.
#[derive(Clone, Debug)]
pub enum Version {
    Parsed(SemVer),
    Unparsed(String),
}

/// Mathematical view of a version.
pub ghost enum VersionView {
    Parsed { major: u64, minor: u64, patch: u64, pre: Seq<char>, build: Seq<char> },
    Unparsed(Seq<char>),
}

impl View for Version {
    type V = VersionView;

    open spec fn view(&self) -> VersionView {
        match self {
            Version::Parsed(s) => VersionView::Parsed {
                major: s.major,
                minor: s.minor,
                patch: s.patch,
                pre: s.pre@,
                build: s.build@,
            },
            Version::Unparsed(s) => VersionView::Unparsed(s@),
        }
    }
}

/// What the semantic-version grammar makes of a string: the parsed
/// parts, or nothing when the string is no semantic version.
pub uninterp spec fn parsed_semver(s: Seq<char>) -> Option<(u64, u64, u64, Seq<char>, Seq<char>)>;

/// Relies on `semver::Version::parse`: a deterministic parser of the
/// semantic-version grammar; on success the struct carries the numeric
/// triple and the pre-release and build identifier strings.
#[verifier::external_body]
fn parse_semver_raw(s: &str) -> (r: Option<(u64, u64, u64, String, String)>)
    ensures
        match r {
            Some(t) => parsed_semver(s@) == Some((t.0, t.1, t.2, t.3@, t.4@)),
            None => parsed_semver(s@) is None,
        },
{
    match semver::Version::parse(s) {
        Ok(v) => Some((
            v.major,
            v.minor,
            v.patch,
            v.pre.as_str().to_string(),
            v.build.as_str().to_string(),
        )),
        Err(_) => None,
    }
}

/// What `Version::parse` yields for a given string.
pub open spec fn spec_parse_version(s: Seq<char>) -> VersionView {
    match parsed_semver(s) {
        Some(t) => VersionView::Parsed {
            major: t.0,
            minor: t.1,
            patch: t.2,
            pre: t.3,
            build: t.4,
        },
        None => VersionView::Unparsed(s),
    }
}

impl Version {
    /// Parse a version string, falling back to the original text.
    pub fn parse(s: &str) -> (r: Self)
        ensures
            r@ == spec_parse_version(s@),
    {
        match parse_semver_raw(s) {
            Some(t) => Version::Parsed(
                SemVer { major: t.0, minor: t.1, patch: t.2, pre: t.3, build: t.4 },
            ),
            None => Version::Unparsed(String::from_str(s)),
        }
    }

    /// The version as text: `major.minor.patch[-pre][+build]`, or the
    /// unparsed original.
    pub fn to_str(&self) -> (r: String)
        ensures
            r@ == spec_version_str(self@),
    {
        match self {
            Version::Unparsed(s) => s.clone(),
            Version::Parsed(v) => {
                let mut out: Vec<char> = Vec::new();
                push_dec(&mut out, v.major);
                out.push('.');
                push_dec(&mut out, v.minor);
                out.push('.');
                push_dec(&mut out, v.patch);
                if v.pre.as_str().unicode_len() > 0 {
                    out.push('-');
                    let mut pv = crate::strutil::chars_of(v.pre.as_str());
                    out.append(&mut pv);
                }
                if v.build.as_str().unicode_len() > 0 {
                    out.push('+');
                    let mut bv = crate::strutil::chars_of(v.build.as_str());
                    out.append(&mut bv);
                }
                proof {
                    assert(out@ =~= spec_version_str(self@));
                }
                crate::strutil::string_from_chars(&out)
            },
        }
    }
}

/// The decimal digits of a number.
pub open spec fn dec_str(n: nat) -> Seq<char>
    decreases n,
{
    if n < 10 {
        seq![dec_digit(n)]
    } else {
        dec_str(n / 10) + seq![dec_digit(n % 10)]
    }
}

pub open spec fn dec_digit(d: nat) -> char {
    if d == 0 {
        '0'
    } else if d == 1 {
        '1'
    } else if d == 2 {
        '2'
    } else if d == 3 {
        '3'
    } else if d == 4 {
        '4'
    } else if d == 5 {
        '5'
    } else if d == 6 {
        '6'
    } else if d == 7 {
        '7'
    } else if d == 8 {
        '8'
    } else {
        '9'
    }
}

/// The text of a version.
pub open spec fn spec_version_str(v: VersionView) -> Seq<char> {
    match v {
        VersionView::Unparsed(s) => s,
        VersionView::Parsed { major, minor, patch, pre, build } => dec_str(major as nat) + seq!['.']
            + dec_str(minor as nat) + seq!['.'] + dec_str(patch as nat) + (if pre.len() > 0 {
            seq!['-'] + pre
        } else {
            Seq::empty()
        }) + (if build.len() > 0 {
            seq!['+'] + build
        } else {
            Seq::empty()
        }),
    }
}

/// Appends the decimal digits of `n`.
pub fn push_dec(out: &mut Vec<char>, n: u64)
    ensures
        final(out)@ == old(out)@ + dec_str(n as nat),
    decreases n,
{
    if n < 10 {
        out.push(dec_digit_char(n));
    } else {
        push_dec(out, n / 10);
        out.push(dec_digit_char(n % 10));
    }
    proof {
        assert(final(out)@ =~= old(out)@ + dec_str(n as nat));
    }
}

fn dec_digit_char(d: u64) -> (r: char)
    requires
        d < 10,
    ensures
        r == dec_digit(d as nat),
{
    if d == 0 {
        '0'
    } else if d == 1 {
        '1'
    } else if d == 2 {
        '2'
    } else if d == 3 {
        '3'
    } else if d == 4 {
        '4'
    } else if d == 5 {
        '5'
    } else if d == 6 {
        '6'
    } else if d == 7 {
        '7'
    } else if d == 8 {
        '8'
    } else {
        '9'
    }
}

/// One normalized cause of undefined behavior, with the package the
/// report was attributed to when attribution succeeded.
#[derive(Clone, Debug, PartialEq, Eq, PartialOrd, Ord)]
pub struct Cause {
    pub kind: String,
    pub source_crate: Option<String>,
}

/// Mathematical view of a cause.
pub ghost struct CauseView {
    pub kind: Seq<char>,
    pub source: Option<Seq<char>>,
}

impl View for Cause {
    type V = CauseView;

    open spec fn view(&self) -> CauseView {
        CauseView {
            kind: self.kind@,
            source: match &self.source_crate {
                Some(s) => Some(s@),
                None => None,
            },
        }
    }
}

/// The analysis verdict for one package run.
#[derive(Clone, Debug, PartialEq, Eq)]
pub enum Status {
    Unknown,
    Passing,
    Error(String),
    UB { cause: Vec<Cause> },
}

/// Mathematical view of a status.
pub ghost enum StatusView {
    Unknown,
    Passing,
    Error(Seq<char>),
    UB(Seq<CauseView>),
}

impl View for Status {
    type V = StatusView;

    open spec fn view(&self) -> StatusView {
        match self {
            Status::Unknown => StatusView::Unknown,
            Status::Passing => StatusView::Passing,
            Status::Error(e) => StatusView::Error(e@),
            Status::UB { cause } => StatusView::UB(
                Seq::new(cause@.len(), |i: int| cause@[i]@),
            ),
        }
    }
}

/// A package under test: registry name, version, its ranking signal and
/// the verdict of its latest analysis.
#[derive(Clone, Debug)]
pub struct Crate {
    pub name: String,
    pub version: Version,
    pub recent_downloads: Option<u64>,
    pub status: Status,
}

impl Tool {
    /// The storage prefix raw transcripts live under.
    pub fn raw_path(self) -> (r: String)
        ensures
            r@ == spec_tool_name(self) + "/raw"@,
    {
        let mut out: Vec<char> = Vec::new();
        self.push_name(&mut out);
        crate::seqs::push_str_chars(&mut out, "/raw");
        crate::strutil::string_from_chars(&out)
    }

    /// The storage key of one package's raw transcript.
    pub fn raw_crate_path(self, krate: &Crate) -> (r: String)
        ensures
            r@ == spec_tool_name(self) + "/raw/"@ + krate.name@ + seq!['/'] + spec_version_str(
                krate.version@,
            ),
    {
        let mut out: Vec<char> = Vec::new();
        self.push_name(&mut out);
        crate::seqs::push_str_chars(&mut out, "/raw/");
        let mut nv = crate::strutil::chars_of(krate.name.as_str());
        out.append(&mut nv);
        out.push('/');
        let vs = krate.version.to_str();
        let mut vv = crate::strutil::chars_of(vs.as_str());
        out.append(&mut vv);
        proof {
            assert(out@ =~= spec_tool_name(self) + "/raw/"@ + krate.name@ + seq!['/']
                + spec_version_str(krate.version@));
        }
        crate::strutil::string_from_chars(&out)
    }

    /// The storage prefix rendered logs live under.
    pub fn html_path(self) -> (r: String)
        ensures
            r@ == spec_tool_name(self) + "/logs"@,
    {
        let mut out: Vec<char> = Vec::new();
        self.push_name(&mut out);
        crate::seqs::push_str_chars(&mut out, "/logs");
        crate::strutil::string_from_chars(&out)
    }

    /// The storage key of one package's rendered log.
    pub fn rendered_crate_path(self, krate: &Crate) -> (r: String)
        ensures
            r@ == spec_tool_name(self) + "/logs/"@ + krate.name@ + seq!['/'] + spec_version_str(
                krate.version@,
            ),
    {
        let mut out: Vec<char> = Vec::new();
        self.push_name(&mut out);
        crate::seqs::push_str_chars(&mut out, "/logs/");
        let mut nv = crate::strutil::chars_of(krate.name.as_str());
        out.append(&mut nv);
        out.push('/');
        let vs = krate.version.to_str();
        let mut vv = crate::strutil::chars_of(vs.as_str());
        out.append(&mut vv);
        proof {
            assert(out@ =~= spec_tool_name(self) + "/logs/"@ + krate.name@ + seq!['/']
                + spec_version_str(krate.version@));
        }
        crate::strutil::string_from_chars(&out)
    }

    /// The tool's short name as text.
    pub fn name_str(self) -> (r: String)
        ensures
            r@ == spec_tool_name(self),
    {
        let mut out: Vec<char> = Vec::new();
        self.push_name(&mut out);
        crate::strutil::string_from_chars(&out)
    }

    /// Parses a tool name; anything unknown is reported back.
    pub fn from_name(s: &str) -> (r: Result<Tool, String>)
        ensures
            s@ == "miri"@ ==> r == Result::<Tool, String>::Ok(Tool::Miri),
            s@ == "asan"@ ==> r == Result::<Tool, String>::Ok(Tool::Asan),
            s@ == "build"@ ==> r == Result::<Tool, String>::Ok(Tool::Build),
            s@ == "check"@ ==> r == Result::<Tool, String>::Ok(Tool::Check),
            s@ != "miri"@ && s@ != "asan"@ && s@ != "build"@ && s@ != "check"@ ==> r is Err,
    {
        proof {
            reveal_strlit("miri");
            reveal_strlit("asan");
            reveal_strlit("build");
            reveal_strlit("check");
            assert("miri"@.len() == 4 && "asan"@.len() == 4 && "build"@.len() == 5
                && "check"@.len() == 5);
            assert("miri"@[0] == 'm' && "asan"@[0] == 'a' && "build"@[0] == 'b' && "check"@[0]
                == 'c');
            assert("miri"@ != "asan"@ && "miri"@ != "build"@ && "miri"@ != "check"@);
            assert("asan"@ != "build"@ && "asan"@ != "check"@);
            assert("build"@ != "check"@);
        }
        let cs = crate::strutil::chars_of(s);
        let miri = crate::strutil::chars_of("miri");
        let asan = crate::strutil::chars_of("asan");
        let build = crate::strutil::chars_of("build");
        let check = crate::strutil::chars_of("check");
        if crate::seqs::chars_eq(&cs, &miri) {
            Ok(Tool::Miri)
        } else if crate::seqs::chars_eq(&cs, &asan) {
            Ok(Tool::Asan)
        } else if crate::seqs::chars_eq(&cs, &build) {
            Ok(Tool::Build)
        } else if crate::seqs::chars_eq(&cs, &check) {
            Ok(Tool::Check)
        } else {
            let mut msg: Vec<char> = Vec::new();
            crate::seqs::push_str_chars(&mut msg, "Not a supported tool: ");
            let mut sv = crate::strutil::chars_of(s);
            msg.append(&mut sv);
            Err(crate::strutil::string_from_chars(&msg))
        }
    }

    fn push_name(self, out: &mut Vec<char>)
        ensures
            final(out)@ == old(out)@ + spec_tool_name(self),
    {
        match self {
            Tool::Miri => crate::seqs::push_str_chars(out, "miri"),
            Tool::Asan => crate::seqs::push_str_chars(out, "asan"),
            Tool::Build => crate::seqs::push_str_chars(out, "build"),
            Tool::Check => crate::seqs::push_str_chars(out, "check"),
        }
    }
}

} // verus!
