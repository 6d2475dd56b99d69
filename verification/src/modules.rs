//! Content-type routing: the declared extension, the leading magic and the
//! content classifier's verdict, where they disagree, and whether a file may
//! go to the disassembler.

use vstd::prelude::*;
use vstd::string::StringSliceAdditionalSpecFns;
use vstd::utf8::encode_utf8;

use crate::text::{bytes_contain, seq_contains, str_eq};
use crate::analysis::{push_str, strings_view};

verus! {

/// A module of the workbench, as its manifest lists it.
#[derive(Clone, Debug, PartialEq, Eq)]
pub struct ModuleSpec {
    pub id: String,
    pub label_ja: String,
    pub label_en: Option<String>,
    pub route: String,
    pub capabilities: Vec<String>,
    pub status: String,
    pub worker: Option<String>,
    pub test_probes: Vec<String>,
}

/// The module manifest: its schema version, the workbench settings (as
/// JSON text, when present) and the modules.
#[derive(Clone, Debug, PartialEq, Eq)]
pub struct ModuleManifest {
    pub schema_version: String,
    pub workbench: Option<String>,
    pub modules: Vec<ModuleSpec>,
}

/// A finished job of a module. `payload` holds the helper's report as
/// JSON text.
#[derive(Clone, Debug, PartialEq, Eq)]
pub struct ModuleJob {
    pub job_id: String,
    pub module_id: String,
    pub input_artifact_id: Option<String>,
    pub sha256: Option<String>,
    pub status: String,
    pub payload: String,
}

/// Whether one capability a module needs is present.
#[derive(Clone, Debug, PartialEq, Eq)]
pub struct CapabilityCheck {
    pub id: String,
    pub available: bool,
    pub detail: String,
}

#[derive(Clone, Debug, PartialEq, Eq)]
pub struct ModuleDiagnosis {
    pub module_id: String,
    pub available: bool,
    pub status: String,
    pub checks: Vec<CapabilityCheck>,
}

/// The content classifier's answer. Its confidence score is kept in parts
/// per million.
#[derive(Clone, Debug, PartialEq, Eq)]
pub struct MagikaOutput {
    pub status: String,
    pub dl_label: Option<String>,
    pub output_label: Option<String>,
    pub score_ppm: Option<u32>,
    pub prediction_mode: String,
    pub mime_type: Option<String>,
    pub is_text: Option<bool>,
}

/// What is known of an artifact's content type, and where it goes next.
#[derive(Clone, Debug, PartialEq, Eq)]
pub struct ContentTypeProbe {
    pub probe_id: String,
    pub artifact_id: String,
    pub declared_extension: String,
    pub magic_hint: String,
    pub magika: MagikaOutput,
    pub mismatch_flags: Vec<String>,
    pub ghidra_eligible: bool,
}

// ---------------------------------------------------------------- magic

/// Bytes that may occur in text: NUL, tab, line feed, carriage return,
/// printable ASCII, and any byte of a multi-byte sequence.
pub open spec fn text_byte(b: u8) -> bool {
    b == 0 || b == 9 || b == 10 || b == 13 || (32 <= b && b <= 126) || b >= 128
}

/// Bytes that count toward the share of visible text.
pub open spec fn visible_byte(b: u8) -> bool {
    b >= 32 || b == 9 || b == 10 || b == 13
}

pub open spec fn count_visible(b: Seq<u8>) -> nat
    decreases b.len(),
{
    if b.len() == 0 {
        0
    } else {
        count_visible(b.drop_last()) + if visible_byte(b.last()) {
            1nat
        } else {
            0nat
        }
    }
}

pub open spec fn looks_textual(b: Seq<u8>) -> bool {
    (forall|i: int| 0 <= i < b.len() ==> text_byte(#[trigger] b[i])) && count_visible(b) * 10 >= b.len() * 8
}

/// A short description of what the leading bytes show.
pub open spec fn spec_magic_hint(b: Seq<u8>) -> Seq<char> {
    if b.len() == 0 {
        "empty"@
    } else if b.len() >= 2 && b[0] == 0x4d && b[1] == 0x5a {
        "PE32 executable"@
    } else if b.len() >= 4 && b[0] == 0x7f && b[1] == 0x45 && b[2] == 0x4c && b[3] == 0x46 {
        "ELF"@
    } else if b.len() >= 2 && b[0] == 0x1f && b[1] == 0x8b {
        "gzip compressed"@
    } else if b.len() >= 4 && b[0] == 0x25 && b[1] == 0x50 && b[2] == 0x44 && b[3] == 0x46 {
        "PDF document"@
    } else if looks_textual(b) {
        "ASCII text"@
    } else {
        "Unknown binary data"@
    }
}

fn looks_textual_exec(bytes: &[u8]) -> (r: bool)
    ensures
        r == looks_textual(bytes@),
{
    let mut visible: usize = 0;
    let mut i: usize = 0;
    while i < bytes.len()
        invariant
            i <= bytes@.len(),
            forall|k: int| 0 <= k < i ==> text_byte(#[trigger] bytes@[k]),
            visible == count_visible(bytes@.take(i as int)),
            visible <= i,
        decreases bytes.len() - i,
    {
        let b = bytes[i];
        if !(b == 0 || b == 9 || b == 10 || b == 13 || (32 <= b && b <= 126) || b >= 128) {
            return false;
        }
        assert(bytes@.take(i + 1).drop_last() =~= bytes@.take(i as int));
        if b >= 32 || b == 9 || b == 10 || b == 13 {
            visible = visible + 1;
        }
        i = i + 1;
    }
    assert(bytes@.take(i as int) =~= bytes@);
    (visible as u128) * 10 >= (bytes.len() as u128) * 8
}

/// Names what the leading bytes show; see `spec_magic_hint`.
pub fn magic_hint(bytes: &[u8]) -> (s: String)
    ensures
        s@ == spec_magic_hint(bytes@),
{
    let n = bytes.len();
    if n == 0 {
        return "empty".to_string();
    }
    if n >= 2 && bytes[0] == 0x4d && bytes[1] == 0x5a {
        return "PE32 executable".to_string();
    }
    if n >= 4 && bytes[0] == 0x7f && bytes[1] == 0x45 && bytes[2] == 0x4c && bytes[3] == 0x46 {
        return "ELF".to_string();
    }
    if n >= 2 && bytes[0] == 0x1f && bytes[1] == 0x8b {
        return "gzip compressed".to_string();
    }
    if n >= 4 && bytes[0] == 0x25 && bytes[1] == 0x50 && bytes[2] == 0x44 && bytes[3] == 0x46 {
        return "PDF document".to_string();
    }
    if looks_textual_exec(bytes) {
        "ASCII text".to_string()
    } else {
        "Unknown binary data".to_string()
    }
}

// ---------------------------------------------------------------- extension

pub open spec fn ascii_lower_byte(b: u8) -> u8 {
    if 0x41 <= b && b <= 0x5a {
        (b + 32) as u8
    } else {
        b
    }
}

pub open spec fn ascii_lower_char(c: char) -> char {
    if 'A' <= c && c <= 'Z' {
        ((c as u32) + 32) as char
    } else {
        c
    }
}

/// ASCII letters in lower case, every other byte unchanged.
pub open spec fn ascii_lower(s: Seq<u8>) -> Seq<u8> {
    s.map_values(|b: u8| ascii_lower_byte(b))
}

fn ascii_lower_vec(s: &[u8]) -> (v: Vec<u8>)
    ensures
        v@ == ascii_lower(s@),
{
    let mut v: Vec<u8> = Vec::new();
    let mut k: usize = 0;
    while k < s.len()
        invariant
            k <= s@.len(),
            v@ == ascii_lower(s@.take(k as int)),
        decreases s.len() - k,
    {
        let b = s[k];
        let l = if 0x41 <= b && b <= 0x5a {
            b + 32
        } else {
            b
        };
        v.push(l);
        assert(ascii_lower(s@.take(k + 1)) =~= ascii_lower(s@.take(k as int)).push(l));
        k = k + 1;
    }
    assert(s@.take(k as int) =~= s@);
    v
}

/// A bare file name: no path separator of any platform and no drive
/// prefix.
pub open spec fn plain_name(name: Seq<char>) -> bool {
    !name.contains('/') && !name.contains('\\') && !name.contains(':')
}

/// The last position before `i` that holds `c`.
pub open spec fn last_index_of(s: Seq<char>, c: char, i: int) -> Option<int>
    decreases i,
{
    if i <= 0 {
        None
    } else if s[i - 1] == c {
        Some(i - 1)
    } else {
        last_index_of(s, c, i - 1)
    }
}

/// The extension of a bare file name: what follows its last dot, unless
/// there is none, the only dot opens the name, or the name is `..`.
pub open spec fn spec_file_extension(name: Seq<char>) -> Option<Seq<char>> {
    if name == ".."@ {
        None
    } else {
        match last_index_of(name, '.', name.len() as int) {
            None => None,
            Some(p) => if p == 0 {
                None
            } else {
                Some(name.skip(p + 1))
            },
        }
    }
}

/// `std::path::Path::extension` of a file name, as UTF-8 text. For a bare
/// file name the standard library documents the result: nothing without a
/// dot or when the only dot opens the name, else the text after the last
/// dot (`..` has no file name, so no extension). How a name with
/// separators splits into components depends on the platform, so for such
/// names the contract states only that a name without a dot has no
/// extension and that an extension holds no dot.
#[verifier::external_body]
pub(crate) fn path_extension(name: &str) -> (r: Option<String>)
    ensures
        !name@.contains('.') ==> r is None,
        r matches Some(e) ==> !e@.contains('.'),
        plain_name(name@) ==> match spec_file_extension(name@) {
            Some(x) => r matches Some(e) && e@ == x,
            None => r is None,
        },
{
    std::path::Path::new(name).extension().and_then(|s| s.to_str()).map(|s| s.to_string())
}

/// The lower-cased extension of a bare file name, if it has one.
pub open spec fn lower_extension(name: Seq<char>) -> Option<Seq<char>> {
    match spec_file_extension(name) {
        Some(x) => Some(x.map_values(|c: char| ascii_lower_char(c))),
        None => None,
    }
}

/// The extension a file name declares, in ASCII lower case; empty when it
/// has none.
pub fn declared_extension(name: &str) -> (s: String)
    ensures
        !name@.contains('.') ==> s@.len() == 0,
        !s@.contains('.'),
        plain_name(name@) ==> s@ == match lower_extension(name@) {
            Some(x) => x,
            None => Seq::empty(),
        },
{
    match path_extension(name) {
        Some(ext) => {
            let mut out = String::new();
            let ghost src = ext@;
            let mut k: usize = 0;
            let chars = crate::text::chars_of(ext.as_str());
            while k < chars.len()
                invariant
                    chars@ == src,
                    !src.contains('.'),
                    k <= chars@.len(),
                    out@ == src.take(k as int).map_values(|c: char| ascii_lower_char(c)),
                decreases chars.len() - k,
            {
                let c = chars[k];
                let l = if 'A' <= c && c <= 'Z' {
                    ((c as u8) + 32) as char
                } else {
                    c
                };
                crate::text::push_char(&mut out, l);
                assert(src.take(k + 1) =~= src.take(k as int).push(c));
                assert(out@ =~= src.take(k + 1).map_values(|c: char| ascii_lower_char(c)));
                k = k + 1;
            }
            assert(src.take(k as int) =~= src);
            assert(!out@.contains('.')) by {
                if out@.contains('.') {
                    let j = choose|j: int| 0 <= j < out@.len() && out@[j] == '.';
                    assert(src[j] == '.');
                }
            }
            out
        },
        None => String::new(),
    }
}

// ---------------------------------------------------------------- routing

pub open spec fn is_pe_label(label: Seq<char>) -> bool {
    label == "pebin"@ || label == "exe"@ || label == "dll"@ || label == "elf"@ || label == "macho"@
}

/// The magic description names a PE image (`pe32` or `mz`, any case).
pub open spec fn pe_magic(magic: Seq<char>) -> bool {
    let m = ascii_lower(encode_utf8(magic));
    seq_contains(m, encode_utf8("pe32"@)) || seq_contains(m, encode_utf8("mz"@))
}

/// A text or script extension: `txt`, `js` or `md`.
pub open spec fn text_ext(ext: Seq<char>) -> bool {
    ext == "txt"@ || ext == "js"@ || ext == "md"@
}

/// The disagreements between extension, magic and classifier: a text or
/// script extension on a PE image; the magic and a working classifier
/// disagreeing about PE-ness, or both calling the content an executable
/// under a text or script extension (a mislabelled file, where every pair
/// of sources is flagged); a `txt` or `js` extension on what the classifier
/// calls an executable.
pub open spec fn spec_mismatch_flags(ext: Seq<char>, magic: Seq<char>, m: MagikaOutput) -> Seq<Seq<char>> {
    let pe = pe_magic(magic);
    let first = if text_ext(ext) && pe {
        seq!["extension_vs_magic"@]
    } else {
        Seq::empty()
    };
    if m.status@ == "ok"@ {
        match m.output_label {
            Some(label) => {
                let pe_label = is_pe_label(label@);
                first + (if (pe != pe_label && (pe || pe_label)) || (pe && pe_label && text_ext(ext)) {
                    seq!["magic_vs_magika"@]
                } else {
                    Seq::empty()
                }) + (if (ext == "txt"@ || ext == "js"@) && pe_label {
                    seq!["extension_vs_magika"@]
                } else {
                    Seq::empty()
                })
            },
            None => first,
        }
    } else {
        first
    }
}

/// A `txt` or `js` file whose magic names a PE image and which a working
/// classifier calls an executable is flagged on all three pairs of sources.
pub proof fn law_mislabelled_executable_flags(ext: Seq<char>, magic: Seq<char>, m: MagikaOutput)
    requires
        ext == "txt"@ || ext == "js"@,
        pe_magic(magic),
        m.status@ == "ok"@,
        m.output_label matches Some(label) && is_pe_label(label@),
    ensures
        spec_mismatch_flags(ext, magic, m) == seq![
            "extension_vs_magic"@,
            "magic_vs_magika"@,
            "extension_vs_magika"@,
        ],
{
    assert(spec_mismatch_flags(ext, magic, m) =~= seq![
        "extension_vs_magic"@,
        "magic_vs_magika"@,
        "extension_vs_magika"@,
    ]);
}

fn pe_magic_exec(magic: &str) -> (r: bool)
    ensures
        r == pe_magic(magic@),
{
    let m = ascii_lower_vec(magic.as_bytes());
    bytes_contain(m.as_slice(), "pe32".as_bytes()) || bytes_contain(m.as_slice(), "mz".as_bytes())
}

fn is_pe_label_exec(label: &str) -> (r: bool)
    ensures
        r == is_pe_label(label@),
{
    str_eq(label, "pebin") || str_eq(label, "exe") || str_eq(label, "dll") || str_eq(label, "elf") || str_eq(
        label,
        "macho",
    )
}

/// Where extension, magic and classifier disagree; see `spec_mismatch_flags`.
pub fn mismatch_flags(ext: &str, magic: &str, magika: &MagikaOutput) -> (v: Vec<String>)
    ensures
        strings_view(v@) == spec_mismatch_flags(ext@, magic@, *magika),
{
    let mut flags: Vec<String> = Vec::new();
    let pe = pe_magic_exec(magic);
    if (str_eq(ext, "txt") || str_eq(ext, "js") || str_eq(ext, "md")) && pe {
        push_str(&mut flags, "extension_vs_magic");
    }
    let ghost first = strings_view(flags@);
    if str_eq(magika.status.as_str(), "ok") {
        match &magika.output_label {
            Some(label) => {
                let pe_label = is_pe_label_exec(label.as_str());
                let text = str_eq(ext, "txt") || str_eq(ext, "js") || str_eq(ext, "md");
                if (pe != pe_label && (pe || pe_label)) || (pe && pe_label && text) {
                    push_str(&mut flags, "magic_vs_magika");
                }
                let ghost second = strings_view(flags@);
                if (str_eq(ext, "txt") || str_eq(ext, "js")) && pe_label {
                    push_str(&mut flags, "extension_vs_magika");
                }
                assert(strings_view(flags@) =~= spec_mismatch_flags(ext@, magic@, *magika));
            },
            None => {
                assert(strings_view(flags@) =~= spec_mismatch_flags(ext@, magic@, *magika));
            },
        }
    } else {
        assert(strings_view(flags@) =~= spec_mismatch_flags(ext@, magic@, *magika));
    }
    flags
}

pub open spec fn is_script_extension(ext: Seq<char>) -> bool {
    ext == "js"@ || ext == "mjs"@ || ext == "ts"@ || ext == "py"@ || ext == "ps1"@ || ext == "css"@ || ext
        == "html"@
}

/// A working classifier decides, and only when it is confident: executables
/// go to the disassembler. Without it, scripts never do, and other files do
/// when the magic names a PE or ELF image.
pub open spec fn spec_ghidra_eligible(p: ContentTypeProbe) -> bool {
    if p.magika.status@ == "ok"@ {
        p.magika.prediction_mode@ == "high-confidence"@ && match p.magika.output_label {
            Some(l) => is_pe_label(l@),
            None => false,
        }
    } else if is_script_extension(p.declared_extension@) {
        false
    } else {
        let m = ascii_lower(encode_utf8(p.magic_hint@));
        seq_contains(m, encode_utf8("pe32"@)) || seq_contains(m, encode_utf8("elf"@))
    }
}

/// Whether the artifact may go to the disassembler; see `spec_ghidra_eligible`.
pub fn ghidra_eligible(probe: &ContentTypeProbe) -> (b: bool)
    ensures
        b == spec_ghidra_eligible(*probe),
{
    if str_eq(probe.magika.status.as_str(), "ok") {
        if !str_eq(probe.magika.prediction_mode.as_str(), "high-confidence") {
            return false;
        }
        return match &probe.magika.output_label {
            Some(l) => is_pe_label_exec(l.as_str()),
            None => false,
        };
    }
    let ext = probe.declared_extension.as_str();
    if str_eq(ext, "js") || str_eq(ext, "mjs") || str_eq(ext, "ts") || str_eq(ext, "py") || str_eq(ext, "ps1")
        || str_eq(ext, "css") || str_eq(ext, "html") {
        return false;
    }
    let m = ascii_lower_vec(probe.magic_hint.as_str().as_bytes());
    bytes_contain(m.as_slice(), "pe32".as_bytes()) || bytes_contain(m.as_slice(), "elf".as_bytes())
}

impl ContentTypeProbe {
    /// The probe with its mismatch flags and disassembler routing filled in
    /// from its other fields.
    pub fn compute_mismatch_and_routing(self) -> (p: ContentTypeProbe)
        ensures
            p.probe_id == self.probe_id,
            p.artifact_id == self.artifact_id,
            p.declared_extension == self.declared_extension,
            p.magic_hint == self.magic_hint,
            p.magika == self.magika,
            strings_view(p.mismatch_flags@) == spec_mismatch_flags(
                self.declared_extension@,
                self.magic_hint@,
                self.magika,
            ),
            p.ghidra_eligible == spec_ghidra_eligible(self),
    {
        let mut p = self;
        p.mismatch_flags = mismatch_flags(p.declared_extension.as_str(), p.magic_hint.as_str(), &p.magika);
        p.ghidra_eligible = ghidra_eligible(&p);
        p
    }
}

/// The classifier's answer when it could not run: unavailable, with no
/// label and no score.
pub fn magika_unavailable() -> (m: MagikaOutput)
    ensures
        m.status@ == "unavailable"@,
        m.dl_label is None,
        m.output_label is None,
        m.score_ppm is None,
        m.prediction_mode@ == "high-confidence"@,
        m.mime_type is None,
        m.is_text is None,
{
    MagikaOutput {
        status: "unavailable".to_string(),
        dl_label: None,
        output_label: None,
        score_ppm: None,
        prediction_mode: "high-confidence".to_string(),
        mime_type: None,
        is_text: None,
    }
}

/// The content-type probe of an artifact: the extension its name declares,
/// the hint its leading bytes give, the classifier's answer (run by the
/// caller), and from these the mismatch flags and the routing.
pub fn probe_bytes(artifact_id: &str, display_name: &str, bytes: &[u8], magika: MagikaOutput) -> (p: ContentTypeProbe)
    ensures
        p.probe_id@.len() == 36,
        p.artifact_id@ == artifact_id@,
        !display_name@.contains('.') ==> p.declared_extension@.len() == 0,
        !p.declared_extension@.contains('.'),
        plain_name(display_name@) ==> p.declared_extension@ == match lower_extension(display_name@) {
            Some(x) => x,
            None => Seq::empty(),
        },
        p.magic_hint@ == spec_magic_hint(bytes@),
        p.magika == magika,
        strings_view(p.mismatch_flags@) == spec_mismatch_flags(p.declared_extension@, p.magic_hint@, magika),
        p.ghidra_eligible == spec_ghidra_eligible(p),
{
    let probe = ContentTypeProbe {
        probe_id: crate::outside::new_uuid(),
        artifact_id: artifact_id.to_string(),
        declared_extension: declared_extension(display_name),
        magic_hint: magic_hint(bytes),
        magika,
        mismatch_flags: Vec::new(),
        ghidra_eligible: false,
    };
    probe.compute_mismatch_and_routing()
}

/// A module the workbench lists but does not offer: planned or disabled.
pub fn module_disabled(status: &str) -> (b: bool)
    ensures
        b == (status@ == "planned"@ || status@ == "disabled"@),
{
    str_eq(status, "planned") || str_eq(status, "disabled")
}

} // verus!
