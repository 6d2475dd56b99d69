//! First look at an input: container magic, text encoding, and a rough kind
//! for text (JSON, JavaScript, plain).

use vstd::prelude::*;
use vstd::utf8::{decode_utf8, valid_utf8};

use crate::js::{is_unicode_ws, str_from_utf8};
use crate::outside::{json_value_ok, spec_json_value_ok};
use crate::text::{chars_of, seq_contains, text_contains};

verus! {

#[derive(Clone, Copy, Debug, PartialEq, Eq, Structural)]
pub enum ProbeKind {
    Utf8,
    Utf16Le,
    Gzip,
    Pe,
    Elf,
    MachO,
    Json,
    JavaScript,
    UnknownBinary,
}

pub open spec fn spec_kind_name(k: ProbeKind) -> Seq<char> {
    match k {
        ProbeKind::Utf8 => "utf8"@,
        ProbeKind::Utf16Le => "utf16le"@,
        ProbeKind::Gzip => "gzip"@,
        ProbeKind::Pe => "pe"@,
        ProbeKind::Elf => "elf"@,
        ProbeKind::MachO => "macho"@,
        ProbeKind::Json => "json"@,
        ProbeKind::JavaScript => "javascript"@,
        ProbeKind::UnknownBinary => "unknown-binary"@,
    }
}

impl ProbeKind {
    /// The kind's name as reports carry it.
    pub fn as_str(self) -> (s: &'static str)
        ensures
            s@ == spec_kind_name(self),
    {
        match self {
            ProbeKind::Utf8 => "utf8",
            ProbeKind::Utf16Le => "utf16le",
            ProbeKind::Gzip => "gzip",
            ProbeKind::Pe => "pe",
            ProbeKind::Elf => "elf",
            ProbeKind::MachO => "macho",
            ProbeKind::Json => "json",
            ProbeKind::JavaScript => "javascript",
            ProbeKind::UnknownBinary => "unknown-binary",
        }
    }

    /// Executable containers whose insides are not analysed.
    pub open spec fn is_executable(self) -> bool {
        self == ProbeKind::Pe || self == ProbeKind::Elf || self == ProbeKind::MachO
    }

    /// Kinds without text analysis: executables and unknown binary data.
    pub open spec fn is_opaque_binary(self) -> bool {
        self.is_executable() || self == ProbeKind::UnknownBinary
    }
}

#[derive(Clone, Copy, Debug, PartialEq, Eq, Structural)]
pub struct Probe {
    pub kind: ProbeKind,
    pub utf8_ok: bool,
}

/// The first position of a character that is not whitespace.
pub open spec fn leading_ws(cs: Seq<char>) -> int
    decreases cs.len(),
{
    if cs.len() == 0 || !is_unicode_ws(cs[0]) {
        0
    } else {
        1 + leading_ws(cs.drop_first())
    }
}

/// `str::trim_start`: leading whitespace removed.
pub open spec fn trim_start(cs: Seq<char>) -> Seq<char> {
    cs.skip(leading_ws(cs))
}

/// How many of the JavaScript markers occur in the text.
pub open spec fn js_marker_hits(cs: Seq<char>) -> nat {
    (if seq_contains(cs, "function "@) {
        1nat
    } else {
        0nat
    }) + (if seq_contains(cs, "const "@) {
        1nat
    } else {
        0nat
    }) + (if seq_contains(cs, "let "@) {
        1nat
    } else {
        0nat
    }) + (if seq_contains(cs, "var "@) {
        1nat
    } else {
        0nat
    }) + (if seq_contains(cs, "=>"@) {
        1nat
    } else {
        0nat
    }) + (if seq_contains(cs, "console."@) {
        1nat
    } else {
        0nat
    }) + (if seq_contains(cs, "export "@) {
        1nat
    } else {
        0nat
    }) + (if seq_contains(cs, "import "@) {
        1nat
    } else {
        0nat
    })
}

/// The kind of a text: JSON when it opens with `{` or `[` (after leading
/// whitespace) and parses as JSON; JavaScript for a `#!` line naming node or
/// for two or more JavaScript markers; plain text otherwise.
pub open spec fn spec_classify(cs: Seq<char>) -> ProbeKind {
    let t = trim_start(cs);
    if t.len() > 0 && (t[0] == '{' || t[0] == '[') && spec_json_value_ok(cs) {
        ProbeKind::Json
    } else if t.len() >= 2 && t[0] == '#' && t[1] == '!' && seq_contains(t, "node"@) {
        ProbeKind::JavaScript
    } else if js_marker_hits(cs) >= 2 {
        ProbeKind::JavaScript
    } else {
        ProbeKind::Utf8
    }
}

/// What `probe` finds: gzip, PE (`MZ`), ELF, Mach-O and UTF-16LE BOM magic
/// first; then well-formed UTF-8 text, classified; else unknown binary.
pub open spec fn spec_probe(b: Seq<u8>) -> Probe {
    if b.len() >= 2 && b[0] == 0x1f && b[1] == 0x8b {
        Probe { kind: ProbeKind::Gzip, utf8_ok: false }
    } else if b.len() >= 2 && b[0] == 0x4d && b[1] == 0x5a {
        Probe { kind: ProbeKind::Pe, utf8_ok: false }
    } else if b.len() >= 4 && b[0] == 0x7f && b[1] == 0x45 && b[2] == 0x4c && b[3] == 0x46 {
        Probe { kind: ProbeKind::Elf, utf8_ok: false }
    } else if b.len() >= 4 && ((b[0] == 0xfe && b[1] == 0xed && b[2] == 0xfa && b[3] == 0xce) || (
    b[0] == 0xce && b[1] == 0xfa && b[2] == 0xed && b[3] == 0xfe) || (b[0] == 0xfe && b[1] == 0xed
        && b[2] == 0xfa && b[3] == 0xcf) || (b[0] == 0xcf && b[1] == 0xfa && b[2] == 0xed && b[3]
        == 0xfe)) {
        Probe { kind: ProbeKind::MachO, utf8_ok: false }
    } else if b.len() >= 2 && b[0] == 0xff && b[1] == 0xfe {
        Probe { kind: ProbeKind::Utf16Le, utf8_ok: false }
    } else if valid_utf8(b) {
        Probe { kind: spec_classify(decode_utf8(b)), utf8_ok: true }
    } else {
        Probe { kind: ProbeKind::UnknownBinary, utf8_ok: false }
    }
}

fn leading_ws_exec(cs: &Vec<char>) -> (k: usize)
    ensures
        k == leading_ws(cs@),
        k <= cs@.len(),
{
    let mut k: usize = 0;
    assert(cs@.skip(0) =~= cs@);
    while k < cs.len() && crate::js::is_unicode_ws_exec(cs[k])
        invariant
            k <= cs@.len(),
            leading_ws(cs@) == k + leading_ws(cs@.skip(k as int)),
        decreases cs.len() - k,
    {
        assert(cs@.skip(k as int).drop_first() =~= cs@.skip(k + 1));
        k = k + 1;
    }
    assert(cs@.skip(k as int).len() == 0 || !is_unicode_ws(cs@.skip(k as int)[0]));
    k
}

fn js_marker_hits_exec(cs: &Vec<char>) -> (n: u32)
    ensures
        n == js_marker_hits(cs@),
{
    let mut n: u32 = 0;
    if text_contains(cs, "function ") {
        n = n + 1;
    }
    if text_contains(cs, "const ") {
        n = n + 1;
    }
    if text_contains(cs, "let ") {
        n = n + 1;
    }
    if text_contains(cs, "var ") {
        n = n + 1;
    }
    if text_contains(cs, "=>") {
        n = n + 1;
    }
    if text_contains(cs, "console.") {
        n = n + 1;
    }
    if text_contains(cs, "export ") {
        n = n + 1;
    }
    if text_contains(cs, "import ") {
        n = n + 1;
    }
    n
}

/// Classifies a text; see `spec_classify`.
pub fn classify_text(text: &str) -> (k: ProbeKind)
    ensures
        k == spec_classify(text@),
{
    let cs = chars_of(text);
    let start = leading_ws_exec(&cs);
    let n = cs.len();
    let ghost t = trim_start(cs@);
    assert(t.len() == n - start);
    if start < n && (cs[start] == '{' || cs[start] == '[') {
        assert(t[0] == cs@[start as int]);
        if json_value_ok(text) {
            return ProbeKind::Json;
        }
    }
    if n - start >= 2 && cs[start] == '#' && cs[start + 1] == '!' {
        assert(t[0] == cs@[start as int] && t[1] == cs@[start + 1]);
        let mut tail: Vec<char> = Vec::new();
        let mut k = start;
        while k < n
            invariant
                start <= k <= n,
                n == cs@.len(),
                tail@ == cs@.subrange(start as int, k as int),
            decreases n - k,
        {
            tail.push(cs[k]);
            assert(cs@.subrange(start as int, k + 1) =~= cs@.subrange(start as int, k as int).push(cs@[k as int]));
            k = k + 1;
        }
        assert(tail@ =~= t);
        if text_contains(&tail, "node") {
            return ProbeKind::JavaScript;
        }
    }
    if js_marker_hits_exec(&cs) >= 2 {
        ProbeKind::JavaScript
    } else {
        ProbeKind::Utf8
    }
}

/// Looks at the leading magic and the encoding of `bytes`; see `spec_probe`.
pub fn probe(bytes: &[u8]) -> (p: Probe)
    ensures
        p == spec_probe(bytes@),
{
    let n = bytes.len();
    if n >= 2 && bytes[0] == 0x1f && bytes[1] == 0x8b {
        return Probe { kind: ProbeKind::Gzip, utf8_ok: false };
    }
    if n >= 2 && bytes[0] == 0x4d && bytes[1] == 0x5a {
        return Probe { kind: ProbeKind::Pe, utf8_ok: false };
    }
    if n >= 4 && bytes[0] == 0x7f && bytes[1] == 0x45 && bytes[2] == 0x4c && bytes[3] == 0x46 {
        return Probe { kind: ProbeKind::Elf, utf8_ok: false };
    }
    if n >= 4 && ((bytes[0] == 0xfe && bytes[1] == 0xed && bytes[2] == 0xfa && bytes[3] == 0xce) || (
    bytes[0] == 0xce && bytes[1] == 0xfa && bytes[2] == 0xed && bytes[3] == 0xfe) || (bytes[0]
        == 0xfe && bytes[1] == 0xed && bytes[2] == 0xfa && bytes[3] == 0xcf) || (bytes[0] == 0xcf
        && bytes[1] == 0xfa && bytes[2] == 0xed && bytes[3] == 0xfe)) {
        return Probe { kind: ProbeKind::MachO, utf8_ok: false };
    }
    if n >= 2 && bytes[0] == 0xff && bytes[1] == 0xfe {
        return Probe { kind: ProbeKind::Utf16Le, utf8_ok: false };
    }
    match str_from_utf8(bytes) {
        Some(text) => {
            proof {
                vstd::utf8::encode_utf8_decode_utf8(text@);
            }
            Probe { kind: classify_text(text), utf8_ok: true }
        },
        None => Probe { kind: ProbeKind::UnknownBinary, utf8_ok: false },
    }
}

} // verus!
