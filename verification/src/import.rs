//! Taking files into a session: the checks on a picked file, the record of
//! a snapshot, and the limits while copying.

use vstd::prelude::*;

use crate::codec::spec_encode_hex;
use crate::engine::sha256_hex;
use crate::error::{err_is, ErrorCode, IpcError};
use crate::info::{ImportedArtifact, SelectionPreview, MAX_INPUT_BYTES};
use crate::modules::{ascii_lower_char, lower_extension, path_extension, plain_name};
use crate::outside::{new_uuid, spec_sha256};
use crate::text::{chars_of, push_char, str_eq, string_of};

verus! {

/// A file picked for import, as inspected. `modified` is the last change
/// time in nanoseconds since the Unix epoch, when known.
#[derive(Clone, Debug)]
pub struct PendingSelection {
    pub path: String,
    pub len: u64,
    pub modified: Option<u128>,
    pub display_name: String,
    pub kind_hint: String,
}

/// What the picker shows of a pending file.
pub fn preview_from_pending(token: String, pending: &PendingSelection) -> (p: SelectionPreview)
    ensures
        p.token == token,
        p.display_name == pending.display_name,
        p.byte_length == pending.len,
        p.kind_hint == pending.kind_hint,
{
    SelectionPreview {
        token,
        display_name: pending.display_name.clone(),
        byte_length: pending.len,
        kind_hint: pending.kind_hint.clone(),
    }
}

/// The kind a file name suggests: its extension in ASCII lower case, or
/// `unknown`.
pub fn kind_hint(name: &str) -> (s: String)
    ensures
        !name@.contains('.') ==> s@ == "unknown"@,
        !s@.contains('.'),
        plain_name(name@) ==> s@ == match lower_extension(name@) {
            Some(x) => x,
            None => "unknown"@,
        },
{
    match path_extension(name) {
        Some(ext) => {
            let cs = chars_of(ext.as_str());
            let mut out = String::new();
            let mut k: usize = 0;
            while k < cs.len()
                invariant
                    k <= cs@.len(),
                    cs@ == ext@,
                    !ext@.contains('.'),
                    out@ == cs@.take(k as int).map_values(|c: char| ascii_lower_char(c)),
                decreases cs.len() - k,
            {
                let c = cs[k];
                let l = if 'A' <= c && c <= 'Z' {
                    ((c as u8) + 32) as char
                } else {
                    c
                };
                push_char(&mut out, l);
                assert(cs@.take(k + 1) =~= cs@.take(k as int).push(c));
                assert(out@ =~= cs@.take(k + 1).map_values(|c: char| ascii_lower_char(c)));
                k = k + 1;
            }
            assert(cs@.take(k as int) =~= cs@);
            assert(!out@.contains('.')) by {
                if out@.contains('.') {
                    let j = choose|j: int| 0 <= j < out@.len() && out@[j] == '.';
                    assert(cs@[j] == '.');
                }
            }
            out
        },
        None => {
            proof {
                reveal_strlit("unknown");
            }
            "unknown".to_string()
        },
    }
}

/// The name a picked file shows: its file name, at most 255 characters,
/// or `unnamed`.
pub fn display_name(file_name: Option<&str>) -> (s: String)
    ensures
        match file_name {
            Some(n) => s@ == n@.take(if n@.len() < 255 {
                n@.len() as int
            } else {
                255
            }),
            None => s@ == "unnamed"@,
        },
{
    match file_name {
        Some(n) => {
            let cs = chars_of(n);
            let m = if cs.len() < 255 {
                cs.len()
            } else {
                255
            };
            let r = string_of(&cs, 0, m);
            assert(cs@.subrange(0, m as int) =~= n@.take(m as int));
            r
        },
        None => "unnamed".to_string(),
    }
}

/// Only regular files up to `MAX_INPUT_BYTES` may be imported; links and
/// directories are refused.
pub fn check_selection(is_symlink: bool, is_dir: bool, is_file: bool, len: u64) -> (r: Result<(), IpcError>)
    ensures
        is_symlink || is_dir || !is_file ==> err_is(r, ErrorCode::InputNotRegular, "error.input_not_regular"@),
        !(is_symlink || is_dir || !is_file) && len > MAX_INPUT_BYTES ==> err_is(
            r,
            ErrorCode::InputTooLarge,
            "error.input_too_large"@,
        ),
        !(is_symlink || is_dir || !is_file) && len <= MAX_INPUT_BYTES ==> r is Ok,
{
    if is_symlink || is_dir || !is_file {
        return Err(IpcError::new(ErrorCode::InputNotRegular, "error.input_not_regular"));
    }
    if len > MAX_INPUT_BYTES {
        return Err(IpcError::new(ErrorCode::InputTooLarge, "error.input_too_large"));
    }
    Ok(())
}

/// The file must look as it did when picked: same length and change time.
pub fn check_unchanged(len: u64, modified: Option<u128>, pending: &PendingSelection) -> (r: Result<(), IpcError>)
    ensures
        len != pending.len || modified != pending.modified ==> err_is(
            r,
            ErrorCode::InputChanged,
            "error.input_changed"@,
        ),
        len == pending.len && modified == pending.modified ==> r is Ok,
{
    if len != pending.len || modified != pending.modified {
        return Err(IpcError::new(ErrorCode::InputChanged, "error.input_changed"));
    }
    Ok(())
}

/// One more chunk of `n` bytes copied: the total, unless it passes the
/// input limit or the length the file had when picked.
pub fn copy_step(written: u64, n: u64, expected_len: u64) -> (r: Result<u64, IpcError>)
    ensures
        written + n > MAX_INPUT_BYTES || written + n > expected_len ==> err_is(
            r,
            ErrorCode::InputTooLarge,
            "error.input_too_large"@,
        ),
        !(written + n > MAX_INPUT_BYTES || written + n > expected_len) ==> r == Ok::<u64, IpcError>(
            (written + n) as u64,
        ),
{
    if n > MAX_INPUT_BYTES || written > MAX_INPUT_BYTES - n {
        return Err(IpcError::new(ErrorCode::InputTooLarge, "error.input_too_large"));
    }
    let total = written + n;
    if total > expected_len {
        return Err(IpcError::new(ErrorCode::InputTooLarge, "error.input_too_large"));
    }
    Ok(total)
}

/// The copy must end at exactly the length the file had when picked.
pub fn copy_done(written: u64, expected_len: u64) -> (r: Result<(), IpcError>)
    ensures
        written != expected_len ==> err_is(r, ErrorCode::InputChanged, "error.input_changed"@),
        written == expected_len ==> r is Ok,
{
    if written != expected_len {
        return Err(IpcError::new(ErrorCode::InputChanged, "error.input_changed"));
    }
    Ok(())
}

/// The record of a snapshot of a picked file, stored under its digest.
pub fn snapshot_record(pending: &PendingSelection, sha256: String, session_id: &str) -> (a: ImportedArtifact)
    ensures
        a.artifact_id@.len() == 36,
        a.session_id@ == session_id@,
        a.display_name == pending.display_name,
        a.byte_length == pending.len,
        a.sha256 == sha256,
        a.kind_hint == pending.kind_hint,
        a.save_mode@ == "ephemeral"@,
{
    ImportedArtifact {
        artifact_id: new_uuid(),
        session_id: session_id.to_string(),
        display_name: pending.display_name.clone(),
        byte_length: pending.len,
        sha256,
        kind_hint: pending.kind_hint.clone(),
        save_mode: "ephemeral".to_string(),
    }
}

/// The record of a snapshot of bytes held in memory, under the name given;
/// inputs over `MAX_INPUT_BYTES` are refused. The caller stores the bytes
/// under the record's digest.
pub fn bytes_snapshot(bytes: &[u8], display_name: &str, session_id: &str) -> (r: Result<ImportedArtifact, IpcError>)
    ensures
        bytes@.len() > MAX_INPUT_BYTES ==> err_is(r, ErrorCode::InputTooLarge, "error.input_too_large"@),
        bytes@.len() <= MAX_INPUT_BYTES ==> (r matches Ok(a) && a.artifact_id@.len() == 36 && a.session_id@
            == session_id@ && a.display_name@ == display_name@ && a.byte_length == bytes@.len() && a.sha256@
            == spec_encode_hex(spec_sha256(bytes@)) && (!display_name@.contains('.') ==> a.kind_hint@
            == "unknown"@) && (plain_name(display_name@) ==> a.kind_hint@ == match lower_extension(
            display_name@,
        ) {
            Some(x) => x,
            None => "unknown"@,
        }) && a.save_mode@ == "ephemeral"@),
{
    if bytes.len() as u64 > MAX_INPUT_BYTES {
        return Err(IpcError::new(ErrorCode::InputTooLarge, "error.input_too_large"));
    }
    Ok(
        ImportedArtifact {
            artifact_id: new_uuid(),
            session_id: session_id.to_string(),
            display_name: display_name.to_string(),
            byte_length: bytes.len() as u64,
            sha256: sha256_hex(bytes),
            kind_hint: kind_hint(display_name),
            save_mode: "ephemeral".to_string(),
        },
    )
}

// ---------------------------------------------------------------- selections

/// A picked file waiting to be imported, under the token its preview
/// carries.
#[derive(Clone, Debug)]
pub struct PendingEntry {
    pub token: String,
    pub pending: PendingSelection,
}

/// The picked files waiting to be imported, at most one per token.
pub struct Selections {
    pub entries: Vec<PendingEntry>,
}

/// The waiting files by token; a later entry for a token wins.
pub open spec fn selections_map(s: Seq<PendingEntry>) -> Map<Seq<char>, PendingSelection>
    decreases s.len(),
{
    if s.len() == 0 {
        Map::empty()
    } else {
        selections_map(s.drop_last()).insert(s.last().token@, s.last().pending)
    }
}

pub open spec fn distinct_tokens(s: Seq<PendingEntry>) -> bool {
    forall|i: int, j: int| 0 <= i < j < s.len() ==> s[i].token@ != s[j].token@
}

proof fn lemma_selections_dom(s: Seq<PendingEntry>, t: Seq<char>)
    ensures
        selections_map(s).dom().contains(t) <==> exists|i: int| 0 <= i < s.len() && s[i].token@ == t,
    decreases s.len(),
{
    if s.len() > 0 {
        lemma_selections_dom(s.drop_last(), t);
        if selections_map(s.drop_last()).dom().contains(t) {
            let i = choose|i: int| 0 <= i < s.drop_last().len() && s.drop_last()[i].token@ == t;
            assert(s[i].token@ == t);
        }
        if exists|i: int| 0 <= i < s.len() && s[i].token@ == t {
            let i = choose|i: int| 0 <= i < s.len() && s[i].token@ == t;
            if i < s.len() - 1 {
                assert(s.drop_last()[i].token@ == t);
            }
        }
    }
}

proof fn lemma_selections_update(s: Seq<PendingEntry>, i: int, e: PendingEntry)
    requires
        distinct_tokens(s),
        0 <= i < s.len(),
        e.token@ == s[i].token@,
    ensures
        selections_map(s.update(i, e)) == selections_map(s).insert(e.token@, e.pending),
    decreases s.len(),
{
    let u = s.update(i, e);
    if i == s.len() - 1 {
        assert(u.drop_last() =~= s.drop_last());
        assert(selections_map(u) =~= selections_map(s).insert(e.token@, e.pending));
    } else {
        assert(u.drop_last() =~= s.drop_last().update(i, e));
        assert(distinct_tokens(s.drop_last())) by {
            assert forall|a: int, b: int| 0 <= a < b < s.drop_last().len() implies s.drop_last()[a].token@
                != s.drop_last()[b].token@ by {
                assert(s[a].token@ != s[b].token@);
            }
        }
        lemma_selections_update(s.drop_last(), i, e);
        assert(s.last().token@ != e.token@) by {
            assert(s[i].token@ != s[s.len() - 1].token@);
        }
        assert(u.last() == s.last());
        assert(selections_map(u) =~= selections_map(s).insert(e.token@, e.pending));
    }
}

proof fn lemma_selections_remove(s: Seq<PendingEntry>, i: int)
    requires
        distinct_tokens(s),
        0 <= i < s.len(),
    ensures
        selections_map(s.remove(i)) == selections_map(s).remove(s[i].token@),
        distinct_tokens(s.remove(i)),
    decreases s.len(),
{
    let t = s[i].token@;
    let r = s.remove(i);
    assert(distinct_tokens(s.drop_last())) by {
        assert forall|a: int, b: int| 0 <= a < b < s.drop_last().len() implies s.drop_last()[a].token@
            != s.drop_last()[b].token@ by {
            assert(s[a].token@ != s[b].token@);
        }
    }
    assert(distinct_tokens(r)) by {
        assert forall|a: int, b: int| 0 <= a < b < r.len() implies r[a].token@ != r[b].token@ by {
            let a0 = if a < i { a } else { a + 1 };
            let b0 = if b < i { b } else { b + 1 };
            assert(r[a] == s[a0] && r[b] == s[b0]);
            assert(s[a0].token@ != s[b0].token@);
        }
    }
    if i == s.len() - 1 {
        assert(r =~= s.drop_last());
        lemma_selections_dom(s.drop_last(), t);
        assert(!selections_map(s.drop_last()).dom().contains(t)) by {
            if selections_map(s.drop_last()).dom().contains(t) {
                let k = choose|k: int| 0 <= k < s.drop_last().len() && s.drop_last()[k].token@ == t;
                assert(s[k].token@ != s[i].token@);
            }
        }
        assert(selections_map(r) =~= selections_map(s).remove(t));
    } else {
        assert(r.drop_last() =~= s.drop_last().remove(i));
        assert(r.last() == s.last());
        lemma_selections_remove(s.drop_last(), i);
        assert(s.last().token@ != t) by {
            assert(s[i].token@ != s[s.len() - 1].token@);
        }
        assert(selections_map(r) =~= selections_map(s).remove(t));
    }
}

impl View for Selections {
    type V = Map<Seq<char>, PendingSelection>;

    open spec fn view(&self) -> Map<Seq<char>, PendingSelection> {
        selections_map(self.entries@)
    }
}

impl Selections {
    pub open spec fn wf(&self) -> bool {
        distinct_tokens(self.entries@)
    }

    /// No file is waiting.
    pub fn new() -> (s: Selections)
        ensures
            s.wf(),
            s@ == Map::<Seq<char>, PendingSelection>::empty(),
    {
        Selections { entries: Vec::new() }
    }

    fn position(&self, token: &str) -> (r: Option<usize>)
        requires
            self.wf(),
        ensures
            match r {
                Some(i) => i < self.entries@.len() && self.entries@[i as int].token@ == token@,
                None => forall|i: int| 0 <= i < self.entries@.len() ==> self.entries@[i].token@ != token@,
            },
    {
        let mut k: usize = 0;
        while k < self.entries.len()
            invariant
                k <= self.entries@.len(),
                forall|i: int| 0 <= i < k ==> self.entries@[i].token@ != token@,
            decreases self.entries.len() - k,
        {
            if str_eq(self.entries[k].token.as_str(), token) {
                return Some(k);
            }
            k = k + 1;
        }
        None
    }

    /// Keeps a picked file under its token, replacing what waited there.
    pub fn register(&mut self, token: String, pending: PendingSelection)
        requires
            old(self).wf(),
        ensures
            final(self).wf(),
            final(self)@ == old(self)@.insert(token@, pending),
    {
        let ghost before = self.entries@;
        let e = PendingEntry { token: token.clone(), pending };
        match self.position(token.as_str()) {
            Some(i) => {
                self.entries.set(i, e);
                proof {
                    lemma_selections_update(before, i as int, e);
                    assert forall|a: int, b: int| 0 <= a < b < self.entries@.len() implies self.entries@[a].token@
                        != self.entries@[b].token@ by {
                        assert(before[a].token@ != before[b].token@);
                    }
                }
            },
            None => {
                self.entries.push(e);
                proof {
                    assert(self.entries@.drop_last() =~= before);
                    assert forall|a: int, b: int| 0 <= a < b < self.entries@.len() implies self.entries@[a].token@
                        != self.entries@[b].token@ by {
                        if b < before.len() {
                            assert(before[a].token@ != before[b].token@);
                        }
                    }
                }
            },
        }
    }

    /// Takes the file waiting under `token` out; a token with none has
    /// expired.
    pub fn take(&mut self, token: &str) -> (r: Result<PendingSelection, IpcError>)
        requires
            old(self).wf(),
        ensures
            final(self).wf(),
            old(self)@.dom().contains(token@) ==> r == Ok::<PendingSelection, IpcError>(old(self)@[token@])
                && final(self)@ == old(self)@.remove(token@),
            !old(self)@.dom().contains(token@) ==> err_is(r, ErrorCode::InputNotRegular, "error.selection_expired"@)
                && final(self)@ == old(self)@,
    {
        let ghost before = self.entries@;
        proof {
            lemma_selections_dom(before, token@);
        }
        match self.position(token) {
            Some(i) => {
                let e = self.entries.remove(i);
                proof {
                    lemma_selections_remove(before, i as int);
                    lemma_selections_value(before, i as int);
                }
                Ok(e.pending)
            },
            None => Err(IpcError::new(ErrorCode::InputNotRegular, "error.selection_expired")),
        }
    }
}

proof fn lemma_selections_value(s: Seq<PendingEntry>, i: int)
    requires
        distinct_tokens(s),
        0 <= i < s.len(),
    ensures
        selections_map(s).dom().contains(s[i].token@),
        selections_map(s)[s[i].token@] == s[i].pending,
    decreases s.len(),
{
    if i < s.len() - 1 {
        assert(distinct_tokens(s.drop_last())) by {
            assert forall|a: int, b: int| 0 <= a < b < s.drop_last().len() implies s.drop_last()[a].token@
                != s.drop_last()[b].token@ by {
                assert(s[a].token@ != s[b].token@);
            }
        }
        lemma_selections_value(s.drop_last(), i);
        assert(s[i].token@ != s.last().token@);
    }
}

/// A file registered under a token is what taking that token gives back,
/// once: afterwards the token is spent, and the other waiting files are as
/// they were before the registration.
pub proof fn law_selection_taken_once(before: Map<Seq<char>, PendingSelection>, token: Seq<char>, pending: PendingSelection)
    ensures
        before.insert(token, pending).dom().contains(token),
        before.insert(token, pending)[token] == pending,
        !before.insert(token, pending).remove(token).dom().contains(token),
        before.insert(token, pending).remove(token) == before.remove(token),
{
    assert(before.insert(token, pending).remove(token) =~= before.remove(token));
}

} // verus!
