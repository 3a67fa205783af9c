use vstd::prelude::*;
use vstd::string::StringExecFns;

verus! {

/// A terminal color: an index into the fixed 256-entry palette, or a
/// 24-bit RGB triple rendered as `#rrggbb`.
#[derive(Clone, Copy, Debug, PartialEq, Eq, Structural)]
pub enum Color {
    EightBit(u8),
    Rgb(u8, u8, u8),
}

/// The CSS color string for palette entry `code`: entries 0-15 are the
/// classic system colors, 16-231 a 6x6x6 RGB cube, 232-255 a grayscale ramp.
pub open spec fn spec_palette(code: u8) -> Seq<char> {
    match code {
            0u8 => "#000"@,
            1u8 => "#a00"@,
            2u8 => "#0a0"@,
            3u8 => "#a60"@,
            4u8 => "#00a"@,
            5u8 => "#a0a"@,
            6u8 => "#0aa"@,
            7u8 => "#aaa"@,
            8u8 => "#555"@,
            9u8 => "#f55"@,
            10u8 => "#5f5"@,
            11u8 => "#ff5"@,
            12u8 => "#55f"@,
            13u8 => "#f5f"@,
            14u8 => "#5ff"@,
            15u8 => "#fff"@,
            16u8 => "#000"@,
            17u8 => "#00005f"@,
            18u8 => "#000087"@,
            19u8 => "#0000af"@,
            20u8 => "#0000d7"@,
            21u8 => "#00f"@,
            22u8 => "#005f00"@,
            23u8 => "#005f5f"@,
            24u8 => "#005f87"@,
            25u8 => "#005faf"@,
            26u8 => "#005fd7"@,
            27u8 => "#005fff"@,
            28u8 => "#008700"@,
            29u8 => "#00875f"@,
            30u8 => "#008787"@,
            31u8 => "#0087af"@,
            32u8 => "#0087d7"@,
            33u8 => "#0087ff"@,
            34u8 => "#00af00"@,
            35u8 => "#00af5f"@,
            36u8 => "#00af87"@,
            37u8 => "#00afaf"@,
            38u8 => "#00afd7"@,
            39u8 => "#00afff"@,
            40u8 => "#00d700"@,
            41u8 => "#00d75f"@,
            42u8 => "#00d787"@,
            43u8 => "#00d7af"@,
            44u8 => "#00d7d7"@,
            45u8 => "#00d7ff"@,
            46u8 => "#0f0"@,
            47u8 => "#00ff5f"@,
            48u8 => "#00ff87"@,
            49u8 => "#00ffaf"@,
            50u8 => "#00ffd7"@,
            51u8 => "#0ff"@,
            52u8 => "#5f0000"@,
            53u8 => "#5f005f"@,
            54u8 => "#5f0087"@,
            55u8 => "#5f00af"@,
            56u8 => "#5f00d7"@,
            57u8 => "#5f00ff"@,
            58u8 => "#5f5f00"@,
            59u8 => "#5f5f5f"@,
            60u8 => "#5f5f87"@,
            61u8 => "#5f5faf"@,
            62u8 => "#5f5fd7"@,
            63u8 => "#5f5fff"@,
            64u8 => "#5f8700"@,
            65u8 => "#5f875f"@,
            66u8 => "#5f8787"@,
            67u8 => "#5f87af"@,
            68u8 => "#5f87d7"@,
            69u8 => "#5f87ff"@,
            70u8 => "#5faf00"@,
            71u8 => "#5faf5f"@,
            72u8 => "#5faf87"@,
            73u8 => "#5fafaf"@,
            74u8 => "#5fafd7"@,
            75u8 => "#5fafff"@,
            76u8 => "#5fd700"@,
            77u8 => "#5fd75f"@,
            78u8 => "#5fd787"@,
            79u8 => "#5fd7af"@,
            80u8 => "#5fd7d7"@,
            81u8 => "#5fd7ff"@,
            82u8 => "#5fff00"@,
            83u8 => "#5fff5f"@,
            84u8 => "#5fff87"@,
            85u8 => "#5fffaf"@,
            86u8 => "#5fffd7"@,
            87u8 => "#5fffff"@,
            88u8 => "#870000"@,
            89u8 => "#87005f"@,
            90u8 => "#870087"@,
            91u8 => "#8700af"@,
            92u8 => "#8700d7"@,
            93u8 => "#8700ff"@,
            94u8 => "#875f00"@,
            95u8 => "#875f5f"@,
            96u8 => "#875f87"@,
            97u8 => "#875faf"@,
            98u8 => "#875fd7"@,
            99u8 => "#875fff"@,
            100u8 => "#878700"@,
            101u8 => "#87875f"@,
            102u8 => "#878787"@,
            103u8 => "#8787af"@,
            104u8 => "#8787d7"@,
            105u8 => "#8787ff"@,
            106u8 => "#87af00"@,
            107u8 => "#87af5f"@,
            108u8 => "#87af87"@,
            109u8 => "#87afaf"@,
            110u8 => "#87afd7"@,
            111u8 => "#87afff"@,
            112u8 => "#87d700"@,
            113u8 => "#87d75f"@,
            114u8 => "#87d787"@,
            115u8 => "#87d7af"@,
            116u8 => "#87d7d7"@,
            117u8 => "#87d7ff"@,
            118u8 => "#87ff00"@,
            119u8 => "#87ff5f"@,
            120u8 => "#87ff87"@,
            121u8 => "#87ffaf"@,
            122u8 => "#87ffd7"@,
            123u8 => "#87ffff"@,
            124u8 => "#af0000"@,
            125u8 => "#af005f"@,
            126u8 => "#af0087"@,
            127u8 => "#af00af"@,
            128u8 => "#af00d7"@,
            129u8 => "#af00ff"@,
            130u8 => "#af5f00"@,
            131u8 => "#af5f5f"@,
            132u8 => "#af5f87"@,
            133u8 => "#af5faf"@,
            134u8 => "#af5fd7"@,
            135u8 => "#af5fff"@,
            136u8 => "#af8700"@,
            137u8 => "#af875f"@,
            138u8 => "#af8787"@,
            139u8 => "#af87af"@,
            140u8 => "#af87d7"@,
            141u8 => "#af87ff"@,
            142u8 => "#afaf00"@,
            143u8 => "#afaf5f"@,
            144u8 => "#afaf87"@,
            145u8 => "#afafaf"@,
            146u8 => "#afafd7"@,
            147u8 => "#afafff"@,
            148u8 => "#afd700"@,
            149u8 => "#afd75f"@,
            150u8 => "#afd787"@,
            151u8 => "#afd7af"@,
            152u8 => "#afd7d7"@,
            153u8 => "#afd7ff"@,
            154u8 => "#afff00"@,
            155u8 => "#afff5f"@,
            156u8 => "#afff87"@,
            157u8 => "#afffaf"@,
            158u8 => "#afffd7"@,
            159u8 => "#afffff"@,
            160u8 => "#d70000"@,
            161u8 => "#d7005f"@,
            162u8 => "#d70087"@,
            163u8 => "#d700af"@,
            164u8 => "#d700d7"@,
            165u8 => "#d700ff"@,
            166u8 => "#d75f00"@,
            167u8 => "#d75f5f"@,
            168u8 => "#d75f87"@,
            169u8 => "#d75faf"@,
            170u8 => "#d75fd7"@,
            171u8 => "#d75fff"@,
            172u8 => "#d78700"@,
            173u8 => "#d7875f"@,
            174u8 => "#d78787"@,
            175u8 => "#d787af"@,
            176u8 => "#d787d7"@,
            177u8 => "#d787ff"@,
            178u8 => "#d7af00"@,
            179u8 => "#d7af5f"@,
            180u8 => "#d7af87"@,
            181u8 => "#d7afaf"@,
            182u8 => "#d7afd7"@,
            183u8 => "#d7afff"@,
            184u8 => "#d7d700"@,
            185u8 => "#d7d75f"@,
            186u8 => "#d7d787"@,
            187u8 => "#d7d7af"@,
            188u8 => "#d7d7d7"@,
            189u8 => "#d7d7ff"@,
            190u8 => "#d7ff00"@,
            191u8 => "#d7ff5f"@,
            192u8 => "#d7ff87"@,
            193u8 => "#d7ffaf"@,
            194u8 => "#d7ffd7"@,
            195u8 => "#d7ffff"@,
            196u8 => "#f00"@,
            197u8 => "#ff005f"@,
            198u8 => "#ff0087"@,
            199u8 => "#ff00af"@,
            200u8 => "#ff00d7"@,
            201u8 => "#f0f"@,
            202u8 => "#ff5f00"@,
            203u8 => "#ff5f5f"@,
            204u8 => "#ff5f87"@,
            205u8 => "#ff5faf"@,
            206u8 => "#ff5fd7"@,
            207u8 => "#ff5fff"@,
            208u8 => "#ff8700"@,
            209u8 => "#ff875f"@,
            210u8 => "#ff8787"@,
            211u8 => "#ff87af"@,
            212u8 => "#ff87d7"@,
            213u8 => "#ff87ff"@,
            214u8 => "#ffaf00"@,
            215u8 => "#ffaf5f"@,
            216u8 => "#ffaf87"@,
            217u8 => "#ffafaf"@,
            218u8 => "#ffafd7"@,
            219u8 => "#ffafff"@,
            220u8 => "#ffd700"@,
            221u8 => "#ffd75f"@,
            222u8 => "#ffd787"@,
            223u8 => "#ffd7af"@,
            224u8 => "#ffd7d7"@,
            225u8 => "#ffd7ff"@,
            226u8 => "#ff0"@,
            227u8 => "#ffff5f"@,
            228u8 => "#ffff87"@,
            229u8 => "#ffffaf"@,
            230u8 => "#ffffd7"@,
            231u8 => "#fff"@,
            232u8 => "#080808"@,
            233u8 => "#121212"@,
            234u8 => "#1c1c1c"@,
            235u8 => "#262626"@,
            236u8 => "#303030"@,
            237u8 => "#3a3a3a"@,
            238u8 => "#444"@,
            239u8 => "#4e4e4e"@,
            240u8 => "#585858"@,
            241u8 => "#626262"@,
            242u8 => "#6c6c6c"@,
            243u8 => "#767676"@,
            244u8 => "#808080"@,
            245u8 => "#8a8a8a"@,
            246u8 => "#949494"@,
            247u8 => "#9e9e9e"@,
            248u8 => "#a8a8a8"@,
            249u8 => "#b2b2b2"@,
            250u8 => "#bcbcbc"@,
            251u8 => "#c6c6c6"@,
            252u8 => "#d0d0d0"@,
            253u8 => "#dadada"@,
            254u8 => "#e4e4e4"@,
            _ => "#eee"@,    }
}

/// Value of the hexadecimal digit characters '0'-'9', 'a'-'f'.
pub open spec fn spec_hex_digit(v: u8) -> char {
    match v {
        0u8 => '0',
        1u8 => '1',
        2u8 => '2',
        3u8 => '3',
        4u8 => '4',
        5u8 => '5',
        6u8 => '6',
        7u8 => '7',
        8u8 => '8',
        9u8 => '9',
        10u8 => 'a',
        11u8 => 'b',
        12u8 => 'c',
        13u8 => 'd',
        14u8 => 'e',
        _ => 'f',
    }
}

/// Two lowercase hex digits for one byte.
pub open spec fn spec_hex_byte(v: u8) -> Seq<char> {
    seq![spec_hex_digit(v / 16), spec_hex_digit(v % 16)]
}

/// The CSS color string of a color: the palette entry, or `#rrggbb`.
pub open spec fn spec_color_css(c: Color) -> Seq<char> {
    match c {
        Color::EightBit(code) => spec_palette(code),
        Color::Rgb(r, g, b) => seq!['#'] + spec_hex_byte(r) + spec_hex_byte(g) + spec_hex_byte(b),
    }
}

fn hex_digit(v: u8) -> (r: char)
    requires
        v < 16,
    ensures
        r == spec_hex_digit(v),
{
    match v {
        0u8 => '0',
        1u8 => '1',
        2u8 => '2',
        3u8 => '3',
        4u8 => '4',
        5u8 => '5',
        6u8 => '6',
        7u8 => '7',
        8u8 => '8',
        9u8 => '9',
        10u8 => 'a',
        11u8 => 'b',
        12u8 => 'c',
        13u8 => 'd',
        14u8 => 'e',
        _ => 'f',
    }
}

fn palette_str(code: u8) -> (r: String)
    ensures
        r@ == spec_palette(code),
{
    match code {
            0u8 => String::from_str("#000"),
            1u8 => String::from_str("#a00"),
            2u8 => String::from_str("#0a0"),
            3u8 => String::from_str("#a60"),
            4u8 => String::from_str("#00a"),
            5u8 => String::from_str("#a0a"),
            6u8 => String::from_str("#0aa"),
            7u8 => String::from_str("#aaa"),
            8u8 => String::from_str("#555"),
            9u8 => String::from_str("#f55"),
            10u8 => String::from_str("#5f5"),
            11u8 => String::from_str("#ff5"),
            12u8 => String::from_str("#55f"),
            13u8 => String::from_str("#f5f"),
            14u8 => String::from_str("#5ff"),
            15u8 => String::from_str("#fff"),
            16u8 => String::from_str("#000"),
            17u8 => String::from_str("#00005f"),
            18u8 => String::from_str("#000087"),
            19u8 => String::from_str("#0000af"),
            20u8 => String::from_str("#0000d7"),
            21u8 => String::from_str("#00f"),
            22u8 => String::from_str("#005f00"),
            23u8 => String::from_str("#005f5f"),
            24u8 => String::from_str("#005f87"),
            25u8 => String::from_str("#005faf"),
            26u8 => String::from_str("#005fd7"),
            27u8 => String::from_str("#005fff"),
            28u8 => String::from_str("#008700"),
            29u8 => String::from_str("#00875f"),
            30u8 => String::from_str("#008787"),
            31u8 => String::from_str("#0087af"),
            32u8 => String::from_str("#0087d7"),
            33u8 => String::from_str("#0087ff"),
            34u8 => String::from_str("#00af00"),
            35u8 => String::from_str("#00af5f"),
            36u8 => String::from_str("#00af87"),
            37u8 => String::from_str("#00afaf"),
            38u8 => String::from_str("#00afd7"),
            39u8 => String::from_str("#00afff"),
            40u8 => String::from_str("#00d700"),
            41u8 => String::from_str("#00d75f"),
            42u8 => String::from_str("#00d787"),
            43u8 => String::from_str("#00d7af"),
            44u8 => String::from_str("#00d7d7"),
            45u8 => String::from_str("#00d7ff"),
            46u8 => String::from_str("#0f0"),
            47u8 => String::from_str("#00ff5f"),
            48u8 => String::from_str("#00ff87"),
            49u8 => String::from_str("#00ffaf"),
            50u8 => String::from_str("#00ffd7"),
            51u8 => String::from_str("#0ff"),
            52u8 => String::from_str("#5f0000"),
            53u8 => String::from_str("#5f005f"),
            54u8 => String::from_str("#5f0087"),
            55u8 => String::from_str("#5f00af"),
            56u8 => String::from_str("#5f00d7"),
            57u8 => String::from_str("#5f00ff"),
            58u8 => String::from_str("#5f5f00"),
            59u8 => String::from_str("#5f5f5f"),
            60u8 => String::from_str("#5f5f87"),
            61u8 => String::from_str("#5f5faf"),
            62u8 => String::from_str("#5f5fd7"),
            63u8 => String::from_str("#5f5fff"),
            64u8 => String::from_str("#5f8700"),
            65u8 => String::from_str("#5f875f"),
            66u8 => String::from_str("#5f8787"),
            67u8 => String::from_str("#5f87af"),
            68u8 => String::from_str("#5f87d7"),
            69u8 => String::from_str("#5f87ff"),
            70u8 => String::from_str("#5faf00"),
            71u8 => String::from_str("#5faf5f"),
            72u8 => String::from_str("#5faf87"),
            73u8 => String::from_str("#5fafaf"),
            74u8 => String::from_str("#5fafd7"),
            75u8 => String::from_str("#5fafff"),
            76u8 => String::from_str("#5fd700"),
            77u8 => String::from_str("#5fd75f"),
            78u8 => String::from_str("#5fd787"),
            79u8 => String::from_str("#5fd7af"),
            80u8 => String::from_str("#5fd7d7"),
            81u8 => String::from_str("#5fd7ff"),
            82u8 => String::from_str("#5fff00"),
            83u8 => String::from_str("#5fff5f"),
            84u8 => String::from_str("#5fff87"),
            85u8 => String::from_str("#5fffaf"),
            86u8 => String::from_str("#5fffd7"),
            87u8 => String::from_str("#5fffff"),
            88u8 => String::from_str("#870000"),
            89u8 => String::from_str("#87005f"),
            90u8 => String::from_str("#870087"),
            91u8 => String::from_str("#8700af"),
            92u8 => String::from_str("#8700d7"),
            93u8 => String::from_str("#8700ff"),
            94u8 => String::from_str("#875f00"),
            95u8 => String::from_str("#875f5f"),
            96u8 => String::from_str("#875f87"),
            97u8 => String::from_str("#875faf"),
            98u8 => String::from_str("#875fd7"),
            99u8 => String::from_str("#875fff"),
            100u8 => String::from_str("#878700"),
            101u8 => String::from_str("#87875f"),
            102u8 => String::from_str("#878787"),
            103u8 => String::from_str("#8787af"),
            104u8 => String::from_str("#8787d7"),
            105u8 => String::from_str("#8787ff"),
            106u8 => String::from_str("#87af00"),
            107u8 => String::from_str("#87af5f"),
            108u8 => String::from_str("#87af87"),
            109u8 => String::from_str("#87afaf"),
            110u8 => String::from_str("#87afd7"),
            111u8 => String::from_str("#87afff"),
            112u8 => String::from_str("#87d700"),
            113u8 => String::from_str("#87d75f"),
            114u8 => String::from_str("#87d787"),
            115u8 => String::from_str("#87d7af"),
            116u8 => String::from_str("#87d7d7"),
            117u8 => String::from_str("#87d7ff"),
            118u8 => String::from_str("#87ff00"),
            119u8 => String::from_str("#87ff5f"),
            120u8 => String::from_str("#87ff87"),
            121u8 => String::from_str("#87ffaf"),
            122u8 => String::from_str("#87ffd7"),
            123u8 => String::from_str("#87ffff"),
            124u8 => String::from_str("#af0000"),
            125u8 => String::from_str("#af005f"),
            126u8 => String::from_str("#af0087"),
            127u8 => String::from_str("#af00af"),
            128u8 => String::from_str("#af00d7"),
            129u8 => String::from_str("#af00ff"),
            130u8 => String::from_str("#af5f00"),
            131u8 => String::from_str("#af5f5f"),
            132u8 => String::from_str("#af5f87"),
            133u8 => String::from_str("#af5faf"),
            134u8 => String::from_str("#af5fd7"),
            135u8 => String::from_str("#af5fff"),
            136u8 => String::from_str("#af8700"),
            137u8 => String::from_str("#af875f"),
            138u8 => String::from_str("#af8787"),
            139u8 => String::from_str("#af87af"),
            140u8 => String::from_str("#af87d7"),
            141u8 => String::from_str("#af87ff"),
            142u8 => String::from_str("#afaf00"),
            143u8 => String::from_str("#afaf5f"),
            144u8 => String::from_str("#afaf87"),
            145u8 => String::from_str("#afafaf"),
            146u8 => String::from_str("#afafd7"),
            147u8 => String::from_str("#afafff"),
            148u8 => String::from_str("#afd700"),
            149u8 => String::from_str("#afd75f"),
            150u8 => String::from_str("#afd787"),
            151u8 => String::from_str("#afd7af"),
            152u8 => String::from_str("#afd7d7"),
            153u8 => String::from_str("#afd7ff"),
            154u8 => String::from_str("#afff00"),
            155u8 => String::from_str("#afff5f"),
            156u8 => String::from_str("#afff87"),
            157u8 => String::from_str("#afffaf"),
            158u8 => String::from_str("#afffd7"),
            159u8 => String::from_str("#afffff"),
            160u8 => String::from_str("#d70000"),
            161u8 => String::from_str("#d7005f"),
            162u8 => String::from_str("#d70087"),
            163u8 => String::from_str("#d700af"),
            164u8 => String::from_str("#d700d7"),
            165u8 => String::from_str("#d700ff"),
            166u8 => String::from_str("#d75f00"),
            167u8 => String::from_str("#d75f5f"),
            168u8 => String::from_str("#d75f87"),
            169u8 => String::from_str("#d75faf"),
            170u8 => String::from_str("#d75fd7"),
            171u8 => String::from_str("#d75fff"),
            172u8 => String::from_str("#d78700"),
            173u8 => String::from_str("#d7875f"),
            174u8 => String::from_str("#d78787"),
            175u8 => String::from_str("#d787af"),
            176u8 => String::from_str("#d787d7"),
            177u8 => String::from_str("#d787ff"),
            178u8 => String::from_str("#d7af00"),
            179u8 => String::from_str("#d7af5f"),
            180u8 => String::from_str("#d7af87"),
            181u8 => String::from_str("#d7afaf"),
            182u8 => String::from_str("#d7afd7"),
            183u8 => String::from_str("#d7afff"),
            184u8 => String::from_str("#d7d700"),
            185u8 => String::from_str("#d7d75f"),
            186u8 => String::from_str("#d7d787"),
            187u8 => String::from_str("#d7d7af"),
            188u8 => String::from_str("#d7d7d7"),
            189u8 => String::from_str("#d7d7ff"),
            190u8 => String::from_str("#d7ff00"),
            191u8 => String::from_str("#d7ff5f"),
            192u8 => String::from_str("#d7ff87"),
            193u8 => String::from_str("#d7ffaf"),
            194u8 => String::from_str("#d7ffd7"),
            195u8 => String::from_str("#d7ffff"),
            196u8 => String::from_str("#f00"),
            197u8 => String::from_str("#ff005f"),
            198u8 => String::from_str("#ff0087"),
            199u8 => String::from_str("#ff00af"),
            200u8 => String::from_str("#ff00d7"),
            201u8 => String::from_str("#f0f"),
            202u8 => String::from_str("#ff5f00"),
            203u8 => String::from_str("#ff5f5f"),
            204u8 => String::from_str("#ff5f87"),
            205u8 => String::from_str("#ff5faf"),
            206u8 => String::from_str("#ff5fd7"),
            207u8 => String::from_str("#ff5fff"),
            208u8 => String::from_str("#ff8700"),
            209u8 => String::from_str("#ff875f"),
            210u8 => String::from_str("#ff8787"),
            211u8 => String::from_str("#ff87af"),
            212u8 => String::from_str("#ff87d7"),
            213u8 => String::from_str("#ff87ff"),
            214u8 => String::from_str("#ffaf00"),
            215u8 => String::from_str("#ffaf5f"),
            216u8 => String::from_str("#ffaf87"),
            217u8 => String::from_str("#ffafaf"),
            218u8 => String::from_str("#ffafd7"),
            219u8 => String::from_str("#ffafff"),
            220u8 => String::from_str("#ffd700"),
            221u8 => String::from_str("#ffd75f"),
            222u8 => String::from_str("#ffd787"),
            223u8 => String::from_str("#ffd7af"),
            224u8 => String::from_str("#ffd7d7"),
            225u8 => String::from_str("#ffd7ff"),
            226u8 => String::from_str("#ff0"),
            227u8 => String::from_str("#ffff5f"),
            228u8 => String::from_str("#ffff87"),
            229u8 => String::from_str("#ffffaf"),
            230u8 => String::from_str("#ffffd7"),
            231u8 => String::from_str("#fff"),
            232u8 => String::from_str("#080808"),
            233u8 => String::from_str("#121212"),
            234u8 => String::from_str("#1c1c1c"),
            235u8 => String::from_str("#262626"),
            236u8 => String::from_str("#303030"),
            237u8 => String::from_str("#3a3a3a"),
            238u8 => String::from_str("#444"),
            239u8 => String::from_str("#4e4e4e"),
            240u8 => String::from_str("#585858"),
            241u8 => String::from_str("#626262"),
            242u8 => String::from_str("#6c6c6c"),
            243u8 => String::from_str("#767676"),
            244u8 => String::from_str("#808080"),
            245u8 => String::from_str("#8a8a8a"),
            246u8 => String::from_str("#949494"),
            247u8 => String::from_str("#9e9e9e"),
            248u8 => String::from_str("#a8a8a8"),
            249u8 => String::from_str("#b2b2b2"),
            250u8 => String::from_str("#bcbcbc"),
            251u8 => String::from_str("#c6c6c6"),
            252u8 => String::from_str("#d0d0d0"),
            253u8 => String::from_str("#dadada"),
            254u8 => String::from_str("#e4e4e4"),
            _ => String::from_str("#eee"),    }
}

impl Color {
    /// The CSS color text for this color.
    pub fn as_str(&self) -> (r: String)
        ensures
            r@ == spec_color_css(*self),
    {
        match *self {
            Color::EightBit(code) => palette_str(code),
            Color::Rgb(r, g, b) => {
                let mut out: Vec<char> = Vec::new();
                out.push('#');
                out.push(hex_digit(r / 16));
                out.push(hex_digit(r % 16));
                out.push(hex_digit(g / 16));
                out.push(hex_digit(g % 16));
                out.push(hex_digit(b / 16));
                out.push(hex_digit(b % 16));
                let s = crate::strutil::string_from_chars(&out);
                proof {
                    assert(s@ =~= spec_color_css(Color::Rgb(r, g, b)));
                }
                s
            },
        }
    }

    pub fn black() -> (r: Self)
        ensures
            r == Color::EightBit(0),
    {
        Color::EightBit(0)
    }

    pub fn red() -> (r: Self)
        ensures
            r == Color::EightBit(1),
    {
        Color::EightBit(1)
    }

    pub fn green() -> (r: Self)
        ensures
            r == Color::EightBit(2),
    {
        Color::EightBit(2)
    }

    pub fn yellow() -> (r: Self)
        ensures
            r == Color::EightBit(3),
    {
        Color::EightBit(3)
    }

    pub fn blue() -> (r: Self)
        ensures
            r == Color::EightBit(4),
    {
        Color::EightBit(4)
    }

    pub fn magenta() -> (r: Self)
        ensures
            r == Color::EightBit(5),
    {
        Color::EightBit(5)
    }

    pub fn cyan() -> (r: Self)
        ensures
            r == Color::EightBit(6),
    {
        Color::EightBit(6)
    }

    pub fn white() -> (r: Self)
        ensures
            r == Color::EightBit(7),
    {
        Color::EightBit(7)
    }

    pub fn bright_black() -> (r: Self)
        ensures
            r == Color::EightBit(8),
    {
        Color::EightBit(8)
    }

    pub fn bright_red() -> (r: Self)
        ensures
            r == Color::EightBit(9),
    {
        Color::EightBit(9)
    }

    pub fn bright_green() -> (r: Self)
        ensures
            r == Color::EightBit(10),
    {
        Color::EightBit(10)
    }

    pub fn bright_yellow() -> (r: Self)
        ensures
            r == Color::EightBit(11),
    {
        Color::EightBit(11)
    }

    pub fn bright_blue() -> (r: Self)
        ensures
            r == Color::EightBit(12),
    {
        Color::EightBit(12)
    }

    pub fn bright_magenta() -> (r: Self)
        ensures
            r == Color::EightBit(13),
    {
        Color::EightBit(13)
    }

    pub fn bright_cyan() -> (r: Self)
        ensures
            r == Color::EightBit(14),
    {
        Color::EightBit(14)
    }

    pub fn bright_white() -> (r: Self)
        ensures
            r == Color::EightBit(15),
    {
        Color::EightBit(15)
    }

    /// Accepts any code in 0..=255 as a palette color.
    pub fn parse_8bit(code: u16) -> (r: Option<Self>)
        ensures
            r == if code <= 255 {
                Some(Color::EightBit(code as u8))
            } else {
                None::<Color>
            },
    {
        if code <= 255 {
            Some(Color::EightBit(code as u8))
        } else {
            None
        }
    }

    /// Accepts a 24-bit color; rejects any component above 255.
    pub fn parse_rgb(r: u16, g: u16, b: u16) -> (res: Option<Self>)
        ensures
            res == if r <= 255 && g <= 255 && b <= 255 {
                Some(Color::Rgb(r as u8, g as u8, b as u8))
            } else {
                None::<Color>
            },
    {
        if r > 255 || g > 255 || b > 255 {
            return None;
        }
        Some(Color::Rgb(r as u8, g as u8, b as u8))
    }
}

} // verus!
