use vstd::prelude::*;

use crate::order::{chars_of, is_any, str_eq};
use crate::text::{lowercase, push_chars, to_lowercase};

verus! {

/// A 24-bit terminal colour.
#[derive(Clone, Copy, PartialEq, Eq, Structural, Debug)]
pub struct Rgb {
    pub r: u8,
    pub g: u8,
    pub b: u8,
}

/// The colour of a directory.
pub open spec fn dir_rgb() -> Rgb {
    Rgb { r: 86, g: 182, b: 194 }
}

/// The colour directories are drawn in.
pub fn dir_color() -> (c: Rgb)
    ensures
        c == dir_rgb(),
{
    Rgb { r: 86, g: 182, b: 194 }
}

// ---------------------------------------------------------------------------
// UTF-8
// ---------------------------------------------------------------------------

/// The UTF-8 encoding of one character.
pub open spec fn utf8_bytes(c: char) -> Seq<u8> {
    let v = c as int;
    if v < 0x80 {
        seq![v as u8]
    } else if v < 0x800 {
        seq![(0xC0 + v / 64) as u8, (0x80 + v % 64) as u8]
    } else if v < 0x10000 {
        seq![(0xE0 + v / 4096) as u8, (0x80 + (v / 64) % 64) as u8, (0x80 + v % 64) as u8]
    } else {
        seq![
            (0xF0 + v / 262144) as u8,
            (0x80 + (v / 4096) % 64) as u8,
            (0x80 + (v / 64) % 64) as u8,
            (0x80 + v % 64) as u8,
        ]
    }
}

/// The UTF-8 encoding of a string.
pub open spec fn utf8_encode(s: Seq<char>) -> Seq<u8>
    decreases s.len(),
{
    if s.len() == 0 {
        Seq::empty()
    } else {
        utf8_encode(s.drop_last()) + utf8_bytes(s.last())
    }
}

fn char_bytes(c: char) -> (b: Vec<u8>)
    ensures
        b@ == utf8_bytes(c),
{
    let v = c as u32;
    let mut b: Vec<u8> = Vec::new();
    if v < 0x80 {
        b.push(v as u8);
    } else if v < 0x800 {
        b.push((0xC0 + v / 64) as u8);
        b.push((0x80 + v % 64) as u8);
    } else if v < 0x10000 {
        b.push((0xE0 + v / 4096) as u8);
        b.push((0x80 + (v / 64) % 64) as u8);
        b.push((0x80 + v % 64) as u8);
    } else {
        b.push((0xF0 + v / 262144) as u8);
        b.push((0x80 + (v / 4096) % 64) as u8);
        b.push((0x80 + (v / 64) % 64) as u8);
        b.push((0x80 + v % 64) as u8);
    }
    proof {
        assert(b@ =~= utf8_bytes(c));
    }
    b
}

// ---------------------------------------------------------------------------
// Extensions
// ---------------------------------------------------------------------------

/// The position of the last '.' in `s`, or -1 when there is none.
pub open spec fn last_dot(s: Seq<char>) -> int
    decreases s.len(),
{
    if s.len() == 0 {
        -1
    } else if s.last() == '.' {
        s.len() - 1
    } else {
        last_dot(s.drop_last())
    }
}

/// The extension of a file name: what follows its last '.', lowercased,
/// when that is not empty and at most eight bytes long; "(none)" otherwise.
pub open spec fn extension_text(name: Seq<char>) -> Seq<char> {
    let d = last_dot(name);
    if d < 0 {
        "(none)"@
    } else {
        let ext = name.subrange(d + 1, name.len() as int);
        if ext.len() > 0 && utf8_encode(ext).len() <= 8 {
            lowercase(ext)
        } else {
            "(none)"@
        }
    }
}

proof fn lemma_last_dot(s: Seq<char>, i: int)
    requires
        -1 <= i < s.len(),
        i >= 0 ==> s[i] == '.',
        forall|j: int| i < j < s.len() ==> s[j] != '.',
    ensures
        last_dot(s) == i,
    decreases s.len(),
{
    if s.len() > 0 && i < s.len() - 1 {
        lemma_last_dot(s.drop_last(), i);
    }
}

/// The extension of `name`, as the browser groups files by it.
pub fn extension_of(name: &str) -> (ext: String)
    ensures
        ext@ == extension_text(name@),
{
    let chars = chars_of(name);
    let n = chars.len();
    let mut i = n;
    while i > 0 && chars[i - 1] != '.'
        invariant
            i <= n,
            n == chars@.len(),
            forall|j: int| i <= j < n ==> chars@[j] != '.',
        decreases i,
    {
        i = i - 1;
    }
    if i == 0 {
        proof {
            lemma_last_dot(name@, -1);
        }
        return String::from_str("(none)");
    }
    proof {
        lemma_last_dot(name@, i - 1);
    }
    let mut raw = String::new();
    push_chars(&mut raw, &chars, i, n);
    let mut bytes: usize = 0;
    let mut k = i;
    while k < n
        invariant
            0 < i <= k <= n,
            n == chars@.len(),
            chars@ == name@,
            last_dot(name@) == i - 1,
            bytes == utf8_encode(chars@.subrange(i as int, k as int)).len(),
            bytes <= 8,
        decreases n - k,
    {
        let w = char_bytes(chars[k]).len();
        proof {
            assert(chars@.subrange(i as int, k + 1).drop_last() =~= chars@.subrange(i as int, k as int));
        }
        if bytes + w > 8 {
            proof {
                lemma_utf8_prefix_le(chars@.subrange(i as int, n as int), k + 1 - i);
                assert(chars@.subrange(i as int, n as int).subrange(0, k + 1 - i) =~= chars@.subrange(i as int, k + 1));
            }
            return String::from_str("(none)");
        }
        bytes = bytes + w;
        k = k + 1;
    }
    if n == i {
        return String::from_str("(none)");
    }
    to_lowercase(raw.as_str())
}

proof fn lemma_utf8_prefix_le(s: Seq<char>, i: int)
    requires
        0 <= i <= s.len(),
    ensures
        utf8_encode(s.subrange(0, i)).len() <= utf8_encode(s).len(),
    decreases s.len(),
{
    if i < s.len() {
        lemma_utf8_prefix_le(s.drop_last(), i);
        assert(s.drop_last().subrange(0, i) =~= s.subrange(0, i));
    } else {
        assert(s.subrange(0, i) =~= s);
    }
}

// ---------------------------------------------------------------------------
// Colours of extensions
// ---------------------------------------------------------------------------

/// The djb2 hash (`h * 33 + byte`, from 5381, wrapping at 32 bits) of `bytes`.
pub open spec fn djb2(bytes: Seq<u8>) -> int
    decreases bytes.len(),
{
    if bytes.len() == 0 {
        5381
    } else {
        (djb2(bytes.drop_last()) * 33 + bytes.last()) % 0x1_0000_0000
    }
}

/// The colours given to extensions that belong to no group, picked by hash.
pub open spec fn fallback_rgb(i: int) -> Rgb {
    if i == 0 {
        Rgb { r: 224, g: 108, b: 117 }
    } else if i == 1 {
        Rgb { r: 97, g: 175, b: 239 }
    } else if i == 2 {
        Rgb { r: 152, g: 195, b: 121 }
    } else if i == 3 {
        Rgb { r: 209, g: 154, b: 102 }
    } else if i == 4 {
        Rgb { r: 198, g: 120, b: 221 }
    } else {
        Rgb { r: 86, g: 182, b: 194 }
    }
}

/// Video extensions.
pub open spec fn is_video(e: Seq<char>) -> bool {
    e == "mp4"@ || e == "mkv"@ || e == "avi"@ || e == "mov"@ || e == "webm"@ || e == "flv"@ || e == "wmv"@
}

/// Audio extensions.
pub open spec fn is_audio(e: Seq<char>) -> bool {
    e == "mp3"@ || e == "wav"@ || e == "flac"@ || e == "aac"@ || e == "ogg"@ || e == "m4a"@
}

/// Image extensions.
pub open spec fn is_image(e: Seq<char>) -> bool {
    e == "jpg"@ || e == "jpeg"@ || e == "png"@ || e == "gif"@ || e == "bmp"@ || e == "svg"@ || e == "webp"@
        || e == "ico"@ || e == "tiff"@
}

/// Archive extensions.
pub open spec fn is_archive(e: Seq<char>) -> bool {
    e == "zip"@ || e == "tar"@ || e == "gz"@ || e == "7z"@ || e == "rar"@ || e == "xz"@ || e == "bz2"@ || e == "zst"@
}

/// Document extensions.
pub open spec fn is_document(e: Seq<char>) -> bool {
    e == "pdf"@ || e == "doc"@ || e == "docx"@ || e == "xls"@ || e == "xlsx"@ || e == "ppt"@ || e == "pptx"@
        || e == "odt"@ || e == "txt"@ || e == "md"@
}

/// Source code extensions.
pub open spec fn is_source(e: Seq<char>) -> bool {
    e == "rs"@ || e == "py"@ || e == "js"@ || e == "ts"@ || e == "tsx"@ || e == "jsx"@ || e == "go"@ || e == "c"@
        || e == "cpp"@ || e == "h"@ || e == "hpp"@ || e == "java"@ || e == "rb"@ || e == "php"@ || e == "sh"@
}

/// Binary extensions.
pub open spec fn is_binary(e: Seq<char>) -> bool {
    e == "exe"@ || e == "dll"@ || e == "so"@ || e == "dylib"@ || e == "bin"@ || e == "app"@ || e == "msi"@
}

/// Configuration and data extensions.
pub open spec fn is_config(e: Seq<char>) -> bool {
    e == "json"@ || e == "toml"@ || e == "yaml"@ || e == "yml"@ || e == "xml"@ || e == "ini"@ || e == "cfg"@
        || e == "conf"@ || e == "lock"@
}

/// The colour of an extension: that of its group (video red, audio purple,
/// images blue, archives orange, documents green, source yellow, binaries
/// teal, configuration grey-blue), grey for "(none)", and otherwise one of
/// six colours picked by the djb2 hash of its UTF-8 bytes.
pub open spec fn extension_rgb(e: Seq<char>) -> Rgb {
    if is_video(e) {
        Rgb { r: 224, g: 108, b: 117 }
    } else if is_audio(e) {
        Rgb { r: 198, g: 120, b: 221 }
    } else if is_image(e) {
        Rgb { r: 97, g: 175, b: 239 }
    } else if is_archive(e) {
        Rgb { r: 209, g: 154, b: 102 }
    } else if is_document(e) {
        Rgb { r: 152, g: 195, b: 121 }
    } else if is_source(e) {
        Rgb { r: 229, g: 192, b: 123 }
    } else if is_binary(e) {
        Rgb { r: 86, g: 182, b: 194 }
    } else if is_config(e) {
        Rgb { r: 171, g: 178, b: 191 }
    } else if e == "(none)"@ {
        Rgb { r: 140, g: 140, b: 140 }
    } else {
        fallback_rgb(djb2(utf8_encode(e)) % 6)
    }
}

fn hash_of(s: &str) -> (h: u64)
    ensures
        h == djb2(utf8_encode(s@)),
        h < 0x1_0000_0000,
{
    let chars = chars_of(s);
    let mut h: u64 = 5381;
    let mut i: usize = 0;
    let ghost mut done: Seq<u8> = Seq::empty();
    while i < chars.len()
        invariant
            i <= chars@.len(),
            chars@ == s@,
            done == utf8_encode(chars@.subrange(0, i as int)),
            h == djb2(done),
            h < 0x1_0000_0000,
        decreases chars@.len() - i,
    {
        let bytes = char_bytes(chars[i]);
        let mut j: usize = 0;
        let ghost start = done;
        while j < bytes.len()
            invariant
                j <= bytes@.len(),
                done == start + bytes@.subrange(0, j as int),
                h == djb2(done),
                h < 0x1_0000_0000,
            decreases bytes@.len() - j,
        {
            let ghost prev = done;
            h = (h * 33 + bytes[j] as u64) % 0x1_0000_0000;
            proof {
                done = prev.push(bytes@[j as int]);
                assert(done.drop_last() == prev);
                assert(done =~= start + bytes@.subrange(0, j + 1));
            }
            j = j + 1;
        }
        proof {
            assert(bytes@.subrange(0, j as int) =~= bytes@);
            assert(chars@.subrange(0, i + 1).drop_last() =~= chars@.subrange(0, i as int));
        }
        i = i + 1;
    }
    proof {
        assert(chars@.subrange(0, i as int) =~= chars@);
    }
    h
}

/// The colour a file with extension `ext` is drawn in.
pub fn color_for_extension(ext: &str) -> (c: Rgb)
    ensures
        c == extension_rgb(ext@),
{
    let video: [&str; 7] = ["mp4", "mkv", "avi", "mov", "webm", "flv", "wmv"];
    let audio: [&str; 6] = ["mp3", "wav", "flac", "aac", "ogg", "m4a"];
    let image: [&str; 9] = ["jpg", "jpeg", "png", "gif", "bmp", "svg", "webp", "ico", "tiff"];
    let archive: [&str; 8] = ["zip", "tar", "gz", "7z", "rar", "xz", "bz2", "zst"];
    let document: [&str; 10] = ["pdf", "doc", "docx", "xls", "xlsx", "ppt", "pptx", "odt", "txt", "md"];
    let source: [&str; 15] = [
        "rs", "py", "js", "ts", "tsx", "jsx", "go", "c", "cpp", "h", "hpp", "java", "rb", "php", "sh",
    ];
    let binary: [&str; 7] = ["exe", "dll", "so", "dylib", "bin", "app", "msi"];
    let config: [&str; 9] = ["json", "toml", "yaml", "yml", "xml", "ini", "cfg", "conf", "lock"];
    if is_any(ext, &video) {
        Rgb { r: 224, g: 108, b: 117 }
    } else if is_any(ext, &audio) {
        Rgb { r: 198, g: 120, b: 221 }
    } else if is_any(ext, &image) {
        Rgb { r: 97, g: 175, b: 239 }
    } else if is_any(ext, &archive) {
        Rgb { r: 209, g: 154, b: 102 }
    } else if is_any(ext, &document) {
        Rgb { r: 152, g: 195, b: 121 }
    } else if is_any(ext, &source) {
        Rgb { r: 229, g: 192, b: 123 }
    } else if is_any(ext, &binary) {
        Rgb { r: 86, g: 182, b: 194 }
    } else if is_any(ext, &config) {
        Rgb { r: 171, g: 178, b: 191 }
    } else if str_eq(ext, "(none)") {
        Rgb { r: 140, g: 140, b: 140 }
    } else {
        let h = hash_of(ext);
        let i = h % 6;
        if i == 0 {
            Rgb { r: 224, g: 108, b: 117 }
        } else if i == 1 {
            Rgb { r: 97, g: 175, b: 239 }
        } else if i == 2 {
            Rgb { r: 152, g: 195, b: 121 }
        } else if i == 3 {
            Rgb { r: 209, g: 154, b: 102 }
        } else if i == 4 {
            Rgb { r: 198, g: 120, b: 221 }
        } else {
            Rgb { r: 86, g: 182, b: 194 }
        }
    }
}

/// The colour an entry is drawn in: the directory colour, or that of the
/// file's extension.
pub fn color_for_entry(name: &str, is_dir: bool) -> (c: Rgb)
    ensures
        c == if is_dir { dir_rgb() } else { extension_rgb(extension_text(name@)) },
{
    if is_dir {
        dir_color()
    } else {
        let ext = extension_of(name);
        color_for_extension(ext.as_str())
    }
}

/// Whether a colour is light enough to want dark text on it (perceived
/// brightness above 150 of 255).
pub fn is_light(c: Rgb) -> (light: bool)
    ensures
        light == ((c.r as int * 299 + c.g as int * 587 + c.b as int * 114) / 1000 > 150),
{
    (c.r as u32 * 299 + c.g as u32 * 587 + c.b as u32 * 114) / 1000 > 150
}

} // verus!
