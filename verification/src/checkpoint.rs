//! Checkpoint bookkeeping for CRIU (Checkpoint/Restore in Userspace).
//!
//! A checkpoint ID is a single, limited ASCII path component, never a path:
//! every operation that turns an ID into a directory validates it first, and
//! the directory must be a real directory directly below the checkpoint root.
//! The file-system probes and the CRIU runs are performed by the caller; this
//! module decides on their results.

use vstd::prelude::*;
use crate::text::{
    chars_of, decimal, decimal_string, is_digit, lemma_decimal_chars, owned, parse_u64_range, parse_unsigned, push_str,
    str_eq, trim, trim_bounds,
};
use crate::paths::{config_dir, join_path, join, config_dir_for};

verus! {

// ---------------------------------------------------------------------------
// Checkpoint IDs
// ---------------------------------------------------------------------------

/// ASCII letters, digits, `_` and `-`.
pub open spec fn id_char(c: char) -> bool {
    ||| 'a' <= c <= 'z'
    ||| 'A' <= c <= 'Z'
    ||| '0' <= c <= '9'
    ||| c == '_'
    ||| c == '-'
}

/// A valid checkpoint ID: 1 to 128 characters, each an ASCII letter, digit, `_` or `-`.
/// (All such characters are one byte long, so this also bounds the byte length.)
pub open spec fn is_valid_checkpoint_id(id: Seq<char>) -> bool {
    &&& 0 < id.len() <= 128
    &&& forall|i: int| 0 <= i < id.len() ==> id_char(#[trigger] id[i])
}

/// Whether `id` is a valid checkpoint ID.
pub fn valid_checkpoint_id(id: &str) -> (res: bool)
    ensures
        res == is_valid_checkpoint_id(id@),
{
    let v = chars_of(id);
    if v.len() == 0 || v.len() > 128 {
        return false;
    }
    let mut i: usize = 0;
    while i < v.len()
        invariant
            v@ == id@,
            0 <= i <= v.len(),
            forall|j: int| 0 <= j < i ==> id_char(#[trigger] v@[j]),
        decreases v.len() - i,
    {
        let c = v[i];
        let ok = ('a' <= c && c <= 'z') || ('A' <= c && c <= 'Z') || ('0' <= c && c <= '9') || c
            == '_' || c == '-';
        if !ok {
            return false;
        }
        i += 1;
    }
    true
}

/// Law: a valid checkpoint ID is a single path component that names neither the
/// current nor the parent directory; it holds no separator and is not absolute.
pub proof fn lemma_valid_id_is_single_component(id: Seq<char>)
    requires
        is_valid_checkpoint_id(id),
    ensures
        forall|i: int| 0 <= i < id.len() ==> id[i] != '/' && id[i] != '\\' && id[i] != '.',
        id != seq!['.'],
        id != seq!['.', '.'],
        id.len() > 0 && id[0] != '/',
{
    assert(id_char(id[0]));
    if id == seq!['.'] {
        assert(id_char(id[0]));
    }
    if id == seq!['.', '.'] {
        assert(id_char(id[0]));
    }
}

/// The ID given to a checkpoint that the caller did not name:
/// `checkpoint_<pid>_<seconds since the epoch>`.
pub open spec fn generated_id(pid: u32, now_secs: u64) -> Seq<char> {
    "checkpoint_"@ + decimal(pid as nat) + "_"@ + decimal(now_secs as nat)
}

pub open spec fn pow10(d: nat) -> nat
    decreases d,
{
    if d == 0 {
        1
    } else {
        10 * pow10((d - 1) as nat)
    }
}

proof fn lemma_decimal_len(n: nat, d: nat)
    requires
        n < pow10(d),
        d >= 1,
    ensures
        decimal(n).len() <= d,
    decreases d,
{
    lemma_decimal_chars(n);
    if n >= 10 {
        if d == 1 {
            assert(pow10(1) == 10) by {
                reveal_with_fuel(pow10, 2);
            }
        }
        let p = pow10((d - 1) as nat);
        assert(n / 10 < p) by (nonlinear_arith)
            requires
                n < 10 * p,
        ;
        lemma_decimal_len(n / 10, (d - 1) as nat);
    }
}

/// Law: an ID that the program generates for a checkpoint is always a valid ID.
pub proof fn lemma_generated_id_valid(pid: u32, now_secs: u64)
    ensures
        is_valid_checkpoint_id(generated_id(pid, now_secs)),
{
    let a = "checkpoint_"@;
    let b = "_"@;
    reveal_strlit("checkpoint_");
    reveal_strlit("_");
    let p = decimal(pid as nat);
    let s = decimal(now_secs as nat);
    lemma_decimal_chars(pid as nat);
    lemma_decimal_chars(now_secs as nat);
    assert(pow10(10) == 10000000000) by {
        reveal_with_fuel(pow10, 11);
    }
    assert(pow10(20) == 100000000000000000000) by {
        reveal_with_fuel(pow10, 21);
    }
    lemma_decimal_len(pid as nat, 10);
    lemma_decimal_len(now_secs as nat, 20);
    let id = generated_id(pid, now_secs);
    assert(id =~= a + p + b + s);
    assert forall|i: int| 0 <= i < id.len() implies id_char(#[trigger] id[i]) by {
        if i < a.len() {
            assert(id[i] == a[i]);
        } else if i < a.len() + p.len() {
            assert(id[i] == p[i - a.len()]);
        } else if i < a.len() + p.len() + 1 {
            assert(id[i] == b[0]);
        } else {
            assert(id[i] == s[i - a.len() - p.len() - 1]);
        }
    }
}


/// The ID under which a checkpoint is taken: the requested one, or a generated one.
pub fn checkpoint_id_for(requested: Option<String>, pid: u32, now_secs: u64) -> (res: String)
    ensures
        res@ == (match requested {
            Some(r) => r@,
            None => generated_id(pid, now_secs),
        }),
{
    match requested {
        Some(r) => r,
        None => {
            let mut id = owned("checkpoint_");
            let p = decimal_string(pid as u64);
            push_str(&mut id, p.as_str());
            push_str(&mut id, "_");
            let s = decimal_string(now_secs);
            push_str(&mut id, s.as_str());
            id
        },
    }
}

/// The note recorded with a new checkpoint: `PID: <pid>, Process: <name>`.
pub open spec fn checkpoint_note(pid: u32, process_name: Seq<char>) -> Seq<char> {
    "PID: "@ + decimal(pid as nat) + ", Process: "@ + process_name
}

// ---------------------------------------------------------------------------
// Checkpoint records
// ---------------------------------------------------------------------------

/// What is known of one checkpoint. The directory is held as a path string;
/// the creation time as whole seconds since the Unix epoch.
#[derive(Debug)]
pub struct CheckpointInfo {
    pub checkpoint_id: String,
    pub pid: u32,
    pub process_name: String,
    pub checkpoint_dir: String,
    pub created_at_secs: u64,
    pub metadata: Option<String>,
}

impl CheckpointInfo {
    /// A field-by-field copy.
    pub fn duplicate(&self) -> (res: CheckpointInfo)
        ensures
            res == *self,
    {
        CheckpointInfo {
            checkpoint_id: self.checkpoint_id.clone(),
            pid: self.pid,
            process_name: self.process_name.clone(),
            checkpoint_dir: self.checkpoint_dir.clone(),
            created_at_secs: self.created_at_secs,
            metadata: match &self.metadata {
                Some(m) => Some(m.clone()),
                None => None,
            },
        }
    }

    /// The record of a checkpoint just taken by CRIU.
    pub fn taken(
        checkpoint_id: String,
        pid: u32,
        process_name: &str,
        checkpoint_dir: String,
        created_at_secs: u64,
    ) -> (res: CheckpointInfo)
        ensures
            res.checkpoint_id == checkpoint_id,
            res.pid == pid,
            res.process_name@ == process_name@,
            res.checkpoint_dir == checkpoint_dir,
            res.created_at_secs == created_at_secs,
            res.metadata matches Some(m) && m@ == checkpoint_note(pid, process_name@),
    {
        let mut note = owned("PID: ");
        let p = decimal_string(pid as u64);
        push_str(&mut note, p.as_str());
        push_str(&mut note, ", Process: ");
        push_str(&mut note, process_name);
        CheckpointInfo {
            checkpoint_id,
            pid,
            process_name: owned(process_name),
            checkpoint_dir,
            created_at_secs,
            metadata: Some(note),
        }
    }

    /// The record of a checkpoint directory found without recorded metadata.
    pub fn discovered(checkpoint_id: String, checkpoint_dir: String, created_at_secs: u64) -> (res:
        CheckpointInfo)
        ensures
            res.checkpoint_id == checkpoint_id,
            res.pid == 0,
            res.process_name@ == "Unknown"@,
            res.checkpoint_dir == checkpoint_dir,
            res.created_at_secs == created_at_secs,
            res.metadata is None,
    {
        CheckpointInfo {
            checkpoint_id,
            pid: 0,
            process_name: owned("Unknown"),
            checkpoint_dir,
            created_at_secs,
            metadata: None,
        }
    }
}

// ---------------------------------------------------------------------------
// Reading a recorded checkpoint
// ---------------------------------------------------------------------------

/// The fields of a recorded checkpoint.
#[derive(Debug, Clone, Copy, PartialEq, Eq)]
pub enum CheckpointField {
    CheckpointId,
    Pid,
    ProcessName,
    CreatedAtSecs,
    Metadata,
}

/// Why a recorded checkpoint is refused.
#[derive(Debug, Clone, Copy, PartialEq, Eq)]
pub enum FieldError {
    Duplicate(CheckpointField),
    Missing(CheckpointField),
    InvalidCheckpointId,
}

/// The fields of a recorded checkpoint as they are read one by one.
pub struct CheckpointFields {
    pub checkpoint_id: Option<String>,
    pub pid: Option<u32>,
    pub process_name: Option<String>,
    pub created_at_secs: Option<u64>,
    pub metadata: Option<Option<String>>,
}

/// The first refusal of a finished set of fields, if any: a missing ID, PID or
/// name, in that order, then an invalid ID.
pub open spec fn fields_error(f: CheckpointFields) -> Option<FieldError> {
    match f.checkpoint_id {
        None => Some(FieldError::Missing(CheckpointField::CheckpointId)),
        Some(id) => if f.pid is None {
            Some(FieldError::Missing(CheckpointField::Pid))
        } else if f.process_name is None {
            Some(FieldError::Missing(CheckpointField::ProcessName))
        } else if !is_valid_checkpoint_id(id@) {
            Some(FieldError::InvalidCheckpointId)
        } else {
            None
        },
    }
}

impl CheckpointFields {
    /// No field read yet.
    pub fn new() -> (res: CheckpointFields)
        ensures
            res.checkpoint_id is None,
            res.pid is None,
            res.process_name is None,
            res.created_at_secs is None,
            res.metadata is None,
    {
        CheckpointFields {
            checkpoint_id: None,
            pid: None,
            process_name: None,
            created_at_secs: None,
            metadata: None,
        }
    }

    /// Records the checkpoint ID; a second one is refused.
    pub fn set_checkpoint_id(&mut self, v: String) -> (res: Result<(), FieldError>)
        ensures
            old(self).checkpoint_id is Some ==> res == Err::<(), FieldError>(
                FieldError::Duplicate(CheckpointField::CheckpointId),
            ) && *final(self) == *old(self),
            old(self).checkpoint_id is None ==> res is Ok && *final(self) == (CheckpointFields {
                checkpoint_id: Some(v),
                ..*old(self)
            }),
    {
        if self.checkpoint_id.is_some() {
            return Err(FieldError::Duplicate(CheckpointField::CheckpointId));
        }
        self.checkpoint_id = Some(v);
        Ok(())
    }

    /// Records the PID; a second one is refused.
    pub fn set_pid(&mut self, v: u32) -> (res: Result<(), FieldError>)
        ensures
            old(self).pid is Some ==> res == Err::<(), FieldError>(
                FieldError::Duplicate(CheckpointField::Pid),
            ) && *final(self) == *old(self),
            old(self).pid is None ==> res is Ok && *final(self) == (CheckpointFields {
                pid: Some(v),
                ..*old(self)
            }),
    {
        if self.pid.is_some() {
            return Err(FieldError::Duplicate(CheckpointField::Pid));
        }
        self.pid = Some(v);
        Ok(())
    }

    /// Records the process name; a second one is refused.
    pub fn set_process_name(&mut self, v: String) -> (res: Result<(), FieldError>)
        ensures
            old(self).process_name is Some ==> res == Err::<(), FieldError>(
                FieldError::Duplicate(CheckpointField::ProcessName),
            ) && *final(self) == *old(self),
            old(self).process_name is None ==> res is Ok && *final(self) == (CheckpointFields {
                process_name: Some(v),
                ..*old(self)
            }),
    {
        if self.process_name.is_some() {
            return Err(FieldError::Duplicate(CheckpointField::ProcessName));
        }
        self.process_name = Some(v);
        Ok(())
    }

    /// Records the creation time; a second one is refused.
    pub fn set_created_at_secs(&mut self, v: u64) -> (res: Result<(), FieldError>)
        ensures
            old(self).created_at_secs is Some ==> res == Err::<(), FieldError>(
                FieldError::Duplicate(CheckpointField::CreatedAtSecs),
            ) && *final(self) == *old(self),
            old(self).created_at_secs is None ==> res is Ok && *final(self) == (CheckpointFields {
                created_at_secs: Some(v),
                ..*old(self)
            }),
    {
        if self.created_at_secs.is_some() {
            return Err(FieldError::Duplicate(CheckpointField::CreatedAtSecs));
        }
        self.created_at_secs = Some(v);
        Ok(())
    }

    /// Records the note (which may itself be absent); a second one is refused.
    pub fn set_metadata(&mut self, v: Option<String>) -> (res: Result<(), FieldError>)
        ensures
            old(self).metadata is Some ==> res == Err::<(), FieldError>(
                FieldError::Duplicate(CheckpointField::Metadata),
            ) && *final(self) == *old(self),
            old(self).metadata is None ==> res is Ok && *final(self) == (CheckpointFields {
                metadata: Some(v),
                ..*old(self)
            }),
    {
        if self.metadata.is_some() {
            return Err(FieldError::Duplicate(CheckpointField::Metadata));
        }
        self.metadata = Some(v);
        Ok(())
    }

    /// The checkpoint the fields describe: the creation time defaults to 0,
    /// the directory is left empty, and the ID must be valid.
    pub fn finish(self) -> (res: Result<CheckpointInfo, FieldError>)
        ensures
            res is Err <==> fields_error(self) is Some,
            res matches Err(e) ==> fields_error(self) == Some(e),
            res matches Ok(c) ==> {
                &&& Some(c.checkpoint_id) == self.checkpoint_id
                &&& Some(c.pid) == self.pid
                &&& Some(c.process_name) == self.process_name
                &&& c.checkpoint_dir@ == Seq::<char>::empty()
                &&& c.created_at_secs == (match self.created_at_secs {
                    Some(s) => s,
                    None => 0,
                })
                &&& c.metadata == (match self.metadata {
                    Some(m) => m,
                    None => None,
                })
            },
    {
        let id = match self.checkpoint_id {
            Some(id) => id,
            None => {
                return Err(FieldError::Missing(CheckpointField::CheckpointId));
            },
        };
        let pid = match self.pid {
            Some(p) => p,
            None => {
                return Err(FieldError::Missing(CheckpointField::Pid));
            },
        };
        let name = match self.process_name {
            Some(n) => n,
            None => {
                return Err(FieldError::Missing(CheckpointField::ProcessName));
            },
        };
        if !valid_checkpoint_id(id.as_str()) {
            return Err(FieldError::InvalidCheckpointId);
        }
        let created_at_secs = match self.created_at_secs {
            Some(s) => s,
            None => 0,
        };
        let metadata = match self.metadata {
            Some(m) => m,
            None => None,
        };
        Ok(
            CheckpointInfo {
                checkpoint_id: id,
                pid,
                process_name: name,
                checkpoint_dir: String::new(),
                created_at_secs,
                metadata,
            },
        )
    }
}


// ---------------------------------------------------------------------------
// Path decisions
// ---------------------------------------------------------------------------

/// What a non-following look at a path (`symlink_metadata`) found.
#[derive(Debug)]
pub enum Probe {
    Symlink,
    Directory,
    RegularFile,
    OtherKind,
    /// Nothing is there; the message describes the failed look.
    NotFound(String),
    /// The look failed for another reason, described by the message.
    Failed(String),
}

pub open spec fn invalid_id_message() -> Seq<char> {
    "Invalid checkpoint ID: expected 1-128 ASCII letters, digits, _ or -"@
}

/// The first check of a checkpoint path: the ID must be valid.
pub fn check_checkpoint_id(id: &str) -> (res: Result<(), String>)
    ensures
        res is Ok <==> is_valid_checkpoint_id(id@),
        res matches Err(m) ==> m@ == invalid_id_message(),
{
    if !valid_checkpoint_id(id) {
        return Err(owned("Invalid checkpoint ID: expected 1-128 ASCII letters, digits, _ or -"));
    }
    Ok(())
}

/// The decision on the checkpoint root: it must be a real directory, not a link.
pub open spec fn root_decision(root: Probe) -> Result<(), Seq<char>> {
    match root {
        Probe::Directory => Ok(()),
        Probe::NotFound(e) => Err("Cannot inspect checkpoint root: "@ + e@),
        Probe::Failed(e) => Err("Cannot inspect checkpoint root: "@ + e@),
        _ => Err("Checkpoint root must be a real directory"@),
    }
}

/// Decides on the checkpoint root from what a look at it found. A missing root
/// is a failed look.
pub fn check_root(root: Probe) -> (res: Result<(), String>)
    ensures
        match root_decision(root) {
            Ok(()) => res is Ok,
            Err(m) => res matches Err(e) && e@ == m,
        },
{
    match root {
        Probe::Directory => Ok(()),
        Probe::NotFound(e) => {
            let mut m = owned("Cannot inspect checkpoint root: ");
            push_str(&mut m, e.as_str());
            Err(m)
        },
        Probe::Failed(e) => {
            let mut m = owned("Cannot inspect checkpoint root: ");
            push_str(&mut m, e.as_str());
            Err(m)
        },
        _ => Err(owned("Checkpoint root must be a real directory")),
    }
}

/// The decision on a checkpoint's own directory: it must be a real directory;
/// one that must exist must be there, and a new one must not be there yet.
pub open spec fn entry_decision(entry: Probe, must_exist: bool) -> Result<(), Seq<char>> {
    match entry {
        Probe::Directory => if must_exist {
            Ok(())
        } else {
            Err("Checkpoint ID already exists"@)
        },
        Probe::NotFound(_) => if must_exist {
            Err("Checkpoint directory not found"@)
        } else {
            Ok(())
        },
        Probe::Failed(e) => Err("Cannot inspect checkpoint directory: "@ + e@),
        _ => Err("Checkpoint entry is a symlink or not a directory"@),
    }
}

/// Decides on a checkpoint's directory from what a look at it found.
pub fn check_entry(entry: Probe, must_exist: bool) -> (res: Result<(), String>)
    ensures
        match entry_decision(entry, must_exist) {
            Ok(()) => res is Ok,
            Err(m) => res matches Err(e) && e@ == m,
        },
{
    match entry {
        Probe::Directory => if must_exist {
            Ok(())
        } else {
            Err(owned("Checkpoint ID already exists"))
        },
        Probe::NotFound(_) => if must_exist {
            Err(owned("Checkpoint directory not found"))
        } else {
            Ok(())
        },
        Probe::Failed(e) => {
            let mut m = owned("Cannot inspect checkpoint directory: ");
            push_str(&mut m, e.as_str());
            Err(m)
        },
        _ => Err(owned("Checkpoint entry is a symlink or not a directory")),
    }
}

/// The restored PID that CRIU wrote: the file's trimmed text must be a
/// positive `u32` in decimal.
pub open spec fn restore_pid_value(contents: Seq<char>) -> Option<nat> {
    match parse_unsigned(trim(contents), u32::MAX as nat) {
        Some(p) => if p > 0 {
            Some(p)
        } else {
            None
        },
        None => None,
    }
}

pub open spec fn bad_pid_message() -> Seq<char> {
    "CRIU returned a missing, invalid, or zero restored PID"@
}

/// The PID file must be a regular file, not a link.
pub fn check_pid_file(kind: Probe) -> (res: Result<(), String>)
    ensures
        res is Ok <==> kind is RegularFile,
        res matches Err(m) ==> m@ == (match kind {
            Probe::NotFound(e) => "CRIU did not create a readable PID file: "@ + e@,
            Probe::Failed(e) => "CRIU did not create a readable PID file: "@ + e@,
            _ => "CRIU PID file is not a regular file"@,
        }),
{
    match kind {
        Probe::RegularFile => Ok(()),
        Probe::NotFound(e) => {
            let mut m = owned("CRIU did not create a readable PID file: ");
            push_str(&mut m, e.as_str());
            Err(m)
        },
        Probe::Failed(e) => {
            let mut m = owned("CRIU did not create a readable PID file: ");
            push_str(&mut m, e.as_str());
            Err(m)
        },
        _ => Err(owned("CRIU PID file is not a regular file")),
    }
}

/// The restored PID from the text of CRIU's PID file.
pub fn parse_restore_pid(contents: &str) -> (res: Result<u32, String>)
    ensures
        match restore_pid_value(contents@) {
            Some(p) => res == Ok::<u32, String>(p as u32),
            None => res matches Err(m) && m@ == bad_pid_message(),
        },
{
    let v = chars_of(contents);
    let (a, b) = trim_bounds(&v, 0, v.len());
    assert(v@.subrange(0, v@.len() as int) =~= v@);
    match parse_u64_range(&v, a, b) {
        Some(n) => {
            if n > 0 && n <= u32::MAX as u64 {
                Ok(n as u32)
            } else {
                Err(owned("CRIU returned a missing, invalid, or zero restored PID"))
            }
        },
        None => {
            proof {
                lemma_parse_unsigned_monotone(trim(contents@), u32::MAX as nat, u64::MAX as nat);
            }
            Err(owned("CRIU returned a missing, invalid, or zero restored PID"))
        },
    }
}

/// A value that does not parse under a larger bound does not parse under a smaller one.
proof fn lemma_parse_unsigned_monotone(s: Seq<char>, small: nat, large: nat)
    requires
        small <= large,
        parse_unsigned(s, large) is None,
    ensures
        parse_unsigned(s, small) is None,
{
}

// ---------------------------------------------------------------------------
// The checkpoint list
// ---------------------------------------------------------------------------

/// A directory entry below the checkpoint root that is taken for a checkpoint
/// without metadata: its name starts with `checkpoint_` and is a valid ID.
pub open spec fn is_checkpoint_dir_name(name: Seq<char>) -> bool {
    &&& name.len() >= 11
    &&& name.subrange(0, 11) == "checkpoint_"@
    &&& is_valid_checkpoint_id(name)
}

pub fn checkpoint_dir_name(name: &str) -> (res: bool)
    ensures
        res == is_checkpoint_dir_name(name@),
{
    let v = chars_of(name);
    let p = chars_of("checkpoint_");
    proof {
        reveal_strlit("checkpoint_");
    }
    let starts = v.len() >= 11 && crate::text::range_eq(&v, 0, 11, &p);
    starts && valid_checkpoint_id(name)
}

/// The position at which a record created at `secs` enters a list kept newest
/// first: after every record at least as new.
pub open spec fn newest_first_slot(s: Seq<CheckpointInfo>, secs: u64) -> int
    decreases s.len(),
{
    if s.len() == 0 {
        0
    } else if s.last().created_at_secs >= secs {
        s.len() as int
    } else {
        newest_first_slot(s.drop_last(), secs)
    }
}

/// `s` ordered newest first, records of the same second in the order
/// they came in (a stable sort by descending creation time).
pub open spec fn newest_first(s: Seq<CheckpointInfo>) -> Seq<CheckpointInfo>
    decreases s.len(),
{
    if s.len() == 0 {
        s
    } else {
        let r = newest_first(s.drop_last());
        r.insert(newest_first_slot(r, s.last().created_at_secs), s.last())
    }
}

pub open spec fn is_newest_first(s: Seq<CheckpointInfo>) -> bool {
    forall|i: int, j: int|
        0 <= i < j < s.len() ==> s[i].created_at_secs >= s[j].created_at_secs
}

proof fn lemma_slot_bounds(s: Seq<CheckpointInfo>, secs: u64)
    ensures
        0 <= newest_first_slot(s, secs) <= s.len(),
    decreases s.len(),
{
    if s.len() > 0 && s.last().created_at_secs < secs {
        lemma_slot_bounds(s.drop_last(), secs);
    }
}

proof fn lemma_slot_fits(s: Seq<CheckpointInfo>, secs: u64)
    requires
        is_newest_first(s),
    ensures
        forall|i: int| 0 <= i < newest_first_slot(s, secs) ==> s[i].created_at_secs >= secs,
        forall|i: int| newest_first_slot(s, secs) <= i < s.len() ==> s[i].created_at_secs < secs,
    decreases s.len(),
{
    lemma_slot_bounds(s, secs);
    if s.len() > 0 {
        if s.last().created_at_secs >= secs {
            assert forall|i: int| 0 <= i < s.len() implies s[i].created_at_secs >= secs by {
                if i < s.len() - 1 {
                    assert(s[i].created_at_secs >= s[s.len() - 1].created_at_secs);
                }
            }
        } else {
            let d = s.drop_last();
            assert(is_newest_first(d));
            lemma_slot_fits(d, secs);
            assert forall|i: int| 0 <= i < newest_first_slot(s, secs) implies s[i].created_at_secs
                >= secs by {
                assert(s[i] == d[i]);
            }
            assert forall|i: int| newest_first_slot(s, secs) <= i < s.len() implies s[i].created_at_secs
                < secs by {
                if i < s.len() - 1 {
                    assert(s[i] == d[i]);
                }
            }
        }
    }
}

/// Law: the stable newest-first order is ordered newest first.
pub proof fn lemma_newest_first_sorted(s: Seq<CheckpointInfo>)
    ensures
        is_newest_first(newest_first(s)),
        newest_first(s).len() == s.len(),
    decreases s.len(),
{
    if s.len() > 0 {
        let r = newest_first(s.drop_last());
        lemma_newest_first_sorted(s.drop_last());
        let x = s.last();
        let k = newest_first_slot(r, x.created_at_secs);
        lemma_slot_fits(r, x.created_at_secs);
        lemma_slot_bounds(r, x.created_at_secs);
        let out = r.insert(k, x);
        assert forall|i: int, j: int| 0 <= i < j < out.len() implies out[i].created_at_secs
            >= out[j].created_at_secs by {
            if j < k {
                assert(out[i] == r[i] && out[j] == r[j]);
            } else if j == k {
                assert(out[i] == r[i]);
            } else if i < k {
                assert(out[i] == r[i] && out[j] == r[j - 1]);
            } else if i == k {
                assert(out[j] == r[j - 1]);
            } else {
                assert(out[i] == r[i - 1] && out[j] == r[j - 1]);
            }
        }
    }
}

/// Law: the newest-first order holds the same records as the list it orders.
pub proof fn lemma_newest_first_permutes(s: Seq<CheckpointInfo>)
    ensures
        newest_first(s).to_multiset() == s.to_multiset(),
    decreases s.len(),
{
    broadcast use vstd::multiset::group_multiset_axioms, vstd::seq_lib::group_to_multiset_ensures;

    if s.len() > 0 {
        let r = newest_first(s.drop_last());
        let x = s.last();
        lemma_newest_first_permutes(s.drop_last());
        let k = newest_first_slot(r, x.created_at_secs);
        lemma_slot_bounds(r, x.created_at_secs);
        let t = r.take(k);
        let u = r.skip(k);
        let out = r.insert(k, x);
        assert(out =~= t.push(x) + u);
        assert(r =~= t + u);
        vstd::seq_lib::lemma_multiset_commutative(t.push(x), u);
        vstd::seq_lib::lemma_multiset_commutative(t, u);
        assert(s =~= s.drop_last().push(x));
        assert(out.to_multiset() =~= s.to_multiset());
    }
}

/// Inserts `x` into a list kept newest first, after every record at least as new.
fn insert_newest_first(list: &mut Vec<CheckpointInfo>, x: CheckpointInfo)
    ensures
        final(list)@ == old(list)@.insert(newest_first_slot(old(list)@, x.created_at_secs), x),
{
    let ghost s = list@;
    let mut k = list.len();
    assert(s.take(s.len() as int) =~= s);
    while k > 0 && list[k - 1].created_at_secs < x.created_at_secs
        invariant
            k <= list.len(),
            list@ == s,
            newest_first_slot(s, x.created_at_secs) == newest_first_slot(
                s.take(k as int),
                x.created_at_secs,
            ),
        decreases k,
    {
        assert(s.take(k as int).drop_last() =~= s.take(k - 1));
        k -= 1;
    }
    proof {
        if k > 0 {
            assert(s.take(k as int).last() == s[k - 1]);
        }
        assert(newest_first_slot(s.take(k as int), x.created_at_secs) == k);
    }
    list.insert(k, x);
}

/// What a list of checkpoints should hold: the recorded ones (already checked
/// against the file system), then the discovered directories whose ID is not
/// listed yet, all ordered newest first.
pub open spec fn merged(recorded: Seq<CheckpointInfo>, discovered: Seq<CheckpointInfo>) -> Seq<
    CheckpointInfo,
> {
    newest_first(merge_unlisted(recorded, discovered))
}

/// `listed` followed by each of `more` whose ID is not yet among the ones before it.
pub open spec fn merge_unlisted(listed: Seq<CheckpointInfo>, more: Seq<CheckpointInfo>) -> Seq<
    CheckpointInfo,
>
    decreases more.len(),
{
    if more.len() == 0 {
        listed
    } else {
        let prior = merge_unlisted(listed, more.drop_last());
        if exists|i: int|
            0 <= i < prior.len() && prior[i].checkpoint_id@ == more.last().checkpoint_id@ {
            prior
        } else {
            prior.push(more.last())
        }
    }
}

fn has_id(list: &Vec<CheckpointInfo>, id: &String) -> (res: bool)
    ensures
        res == exists|i: int| 0 <= i < list@.len() && list@[i].checkpoint_id@ == id@,
{
    let mut i: usize = 0;
    while i < list.len()
        invariant
            0 <= i <= list.len(),
            forall|j: int| 0 <= j < i ==> list@[j].checkpoint_id@ != id@,
        decreases list.len() - i,
    {
        if str_eq(list[i].checkpoint_id.as_str(), id.as_str()) {
            return true;
        }
        i += 1;
    }
    false
}

/// The list of checkpoints from the recorded ones and the discovered directories.
pub fn merge_checkpoints(recorded: Vec<CheckpointInfo>, discovered: Vec<CheckpointInfo>) -> (res:
    Vec<CheckpointInfo>)
    ensures
        res@ == merged(recorded@, discovered@),
{
    let mut all = recorded;
    let ghost rec = all@;
    let mut i: usize = 0;
    while i < discovered.len()
        invariant
            0 <= i <= discovered.len(),
            all@ == merge_unlisted(rec, discovered@.take(i as int)),
        decreases discovered.len() - i,
    {
        assert(discovered@.take(i + 1).drop_last() =~= discovered@.take(i as int));
        let c = discovered[i].duplicate();
        if !has_id(&all, &c.checkpoint_id) {
            all.push(c);
        }
        i += 1;
    }
    assert(discovered@.take(discovered.len() as int) =~= discovered@);
    let ghost unsorted = all@;
    let mut out: Vec<CheckpointInfo> = Vec::new();
    let mut j: usize = 0;
    while j < all.len()
        invariant
            0 <= j <= all.len(),
            all@ == unsorted,
            out@ == newest_first(unsorted.take(j as int)),
        decreases all.len() - j,
    {
        assert(unsorted.take(j + 1).drop_last() =~= unsorted.take(j as int));
        let c = all[j].duplicate();
        insert_newest_first(&mut out, c);
        j += 1;
    }
    assert(unsorted.take(all.len() as int) =~= unsorted);
    out
}

/// The recorded checkpoints to list: each whose ID is valid and whose
/// directory was found (`found[i]` for `recorded[i]`), with that directory.
pub open spec fn kept_records(recorded: Seq<CheckpointInfo>, found: Seq<Option<String>>) -> Seq<
    CheckpointInfo,
>
    decreases recorded.len(),
{
    if recorded.len() == 0 || found.len() == 0 {
        seq![]
    } else {
        let rest = kept_records(recorded.drop_last(), found.drop_last());
        let r = recorded.last();
        match found.last() {
            Some(dir) => if is_valid_checkpoint_id(r.checkpoint_id@) {
                rest.push(CheckpointInfo { checkpoint_dir: dir, ..r })
            } else {
                rest
            },
            None => rest,
        }
    }
}

/// Holds of the records whose ID names a checkpoint directory.
pub open spec fn dir_named() -> spec_fn(CheckpointInfo) -> bool {
    |c: CheckpointInfo| is_checkpoint_dir_name(c.checkpoint_id@)
}

/// Every record in `s` has a valid checkpoint ID.
pub open spec fn ids_valid(s: Seq<CheckpointInfo>) -> bool {
    forall|i: int| 0 <= i < s.len() ==> is_valid_checkpoint_id(#[trigger] s[i].checkpoint_id@)
}

/// The checkpoints to list, newest first: the recorded ones that are kept
/// (see `kept_records`; `found[i]` is where the directory of `recorded[i]`
/// was found, if it was), then the discovered directories whose name is a
/// checkpoint directory name and whose ID is not listed yet.
pub fn listed_checkpoints(
    recorded: Vec<CheckpointInfo>,
    found: Vec<Option<String>>,
    discovered: Vec<CheckpointInfo>,
) -> (res: Vec<CheckpointInfo>)
    requires
        found@.len() == recorded@.len(),
    ensures
        res@ == merged(kept_records(recorded@, found@), discovered@.filter(dir_named())),
{
    let mut kept: Vec<CheckpointInfo> = Vec::new();
    let mut i: usize = 0;
    while i < recorded.len()
        invariant
            i <= recorded@.len(),
            found@.len() == recorded@.len(),
            kept@ == kept_records(recorded@.take(i as int), found@.take(i as int)),
        decreases recorded.len() - i,
    {
        assert(recorded@.take(i + 1).drop_last() =~= recorded@.take(i as int));
        assert(found@.take(i + 1).drop_last() =~= found@.take(i as int));
        match &found[i] {
            Some(dir) => {
                if valid_checkpoint_id(recorded[i].checkpoint_id.as_str()) {
                    let mut c = recorded[i].duplicate();
                    c.checkpoint_dir = dir.clone();
                    kept.push(c);
                }
            },
            None => {},
        }
        i += 1;
    }
    assert(recorded@.take(recorded.len() as int) =~= recorded@);
    assert(found@.take(found.len() as int) =~= found@);
    let mut named: Vec<CheckpointInfo> = Vec::new();
    let mut j: usize = 0;
    while j < discovered.len()
        invariant
            j <= discovered@.len(),
            named@ == discovered@.take(j as int).filter(dir_named()),
        decreases discovered.len() - j,
    {
        proof {
            assert(discovered@.take(j + 1).drop_last() =~= discovered@.take(j as int));
            reveal(Seq::filter);
        }
        if checkpoint_dir_name(discovered[j].checkpoint_id.as_str()) {
            named.push(discovered[j].duplicate());
        }
        j += 1;
    }
    assert(discovered@.take(discovered.len() as int) =~= discovered@);
    merge_checkpoints(kept, named)
}

proof fn lemma_kept_records_valid(recorded: Seq<CheckpointInfo>, found: Seq<Option<String>>)
    ensures
        ids_valid(kept_records(recorded, found)),
    decreases recorded.len(),
{
    if recorded.len() > 0 && found.len() > 0 {
        lemma_kept_records_valid(recorded.drop_last(), found.drop_last());
    }
}

proof fn lemma_merge_unlisted_valid(listed: Seq<CheckpointInfo>, more: Seq<CheckpointInfo>)
    requires
        ids_valid(listed),
        ids_valid(more),
    ensures
        ids_valid(merge_unlisted(listed, more)),
    decreases more.len(),
{
    if more.len() > 0 {
        assert(ids_valid(more.drop_last())) by {
            assert forall|i: int| 0 <= i < more.len() - 1 implies is_valid_checkpoint_id(
                #[trigger] more.drop_last()[i].checkpoint_id@,
            ) by {
                assert(more.drop_last()[i] == more[i]);
            }
        }
        lemma_merge_unlisted_valid(listed, more.drop_last());
        assert(is_valid_checkpoint_id(more[more.len() - 1].checkpoint_id@));
    }
}

proof fn lemma_newest_first_valid(s: Seq<CheckpointInfo>)
    requires
        ids_valid(s),
    ensures
        ids_valid(newest_first(s)),
    decreases s.len(),
{
    if s.len() > 0 {
        assert(ids_valid(s.drop_last())) by {
            assert forall|i: int| 0 <= i < s.len() - 1 implies is_valid_checkpoint_id(
                #[trigger] s.drop_last()[i].checkpoint_id@,
            ) by {
                assert(s.drop_last()[i] == s[i]);
            }
        }
        lemma_newest_first_valid(s.drop_last());
        let r = newest_first(s.drop_last());
        let x = s.last();
        assert(is_valid_checkpoint_id(s[s.len() - 1].checkpoint_id@));
        let k = newest_first_slot(r, x.created_at_secs);
        lemma_slot_bounds(r, x.created_at_secs);
        let out = r.insert(k, x);
        assert forall|i: int| 0 <= i < out.len() implies is_valid_checkpoint_id(
            #[trigger] out[i].checkpoint_id@,
        ) by {
            if i < k {
                assert(out[i] == r[i]);
            } else if i > k {
                assert(out[i] == r[i - 1]);
            }
        }
    }
}

/// Law: every listed checkpoint has a valid ID, and the list is ordered
/// newest first.
pub proof fn lemma_listed_checkpoints_valid(
    recorded: Seq<CheckpointInfo>,
    found: Seq<Option<String>>,
    discovered: Seq<CheckpointInfo>,
)
    ensures
        ids_valid(merged(kept_records(recorded, found), discovered.filter(dir_named()))),
        is_newest_first(merged(kept_records(recorded, found), discovered.filter(dir_named()))),
{
    let named = discovered.filter(dir_named());
    assert forall|i: int| 0 <= i < named.len() implies is_valid_checkpoint_id(
        #[trigger] named[i].checkpoint_id@,
    ) by {
        discovered.lemma_filter_pred(dir_named(), i);
    }
    lemma_kept_records_valid(recorded, found);
    lemma_merge_unlisted_valid(kept_records(recorded, found), named);
    lemma_newest_first_valid(merge_unlisted(kept_records(recorded, found), named));
    lemma_newest_first_sorted(merge_unlisted(kept_records(recorded, found), named));
}

/// `list` without the checkpoints named `id`, the others in their order.
pub open spec fn without_id(list: Seq<CheckpointInfo>, id: Seq<char>) -> Seq<CheckpointInfo> {
    list.filter(other_id(id))
}

/// Holds of the checkpoints not named `id`.
pub open spec fn other_id(id: Seq<char>) -> spec_fn(CheckpointInfo) -> bool {
    |c: CheckpointInfo| c.checkpoint_id@ != id
}

/// The list without the checkpoints named `id` (what deleting a checkpoint records).
pub fn remove_checkpoint(list: &Vec<CheckpointInfo>, id: &str) -> (res: Vec<CheckpointInfo>)
    ensures
        res@ == without_id(list@, id@),
{
    let mut out: Vec<CheckpointInfo> = Vec::new();
    let mut i: usize = 0;
    while i < list.len()
        invariant
            0 <= i <= list.len(),
            out@ == without_id(list@.take(i as int), id@),
        decreases list.len() - i,
    {
        assert(list@.take(i + 1).drop_last() =~= list@.take(i as int));
        proof {
            reveal(Seq::filter);
        }
        if !str_eq(list[i].checkpoint_id.as_str(), id) {
            out.push(list[i].duplicate());
        }
        i += 1;
    }
    assert(list@.take(list.len() as int) =~= list@);
    out
}

/// The list with `info` recorded in place of any checkpoint of the same ID,
/// at the end (what saving a checkpoint's metadata records).
pub fn record_checkpoint(list: &Vec<CheckpointInfo>, info: CheckpointInfo) -> (res: Vec<
    CheckpointInfo,
>)
    ensures
        res@ == without_id(list@, info.checkpoint_id@).push(info),
{
    let mut out = remove_checkpoint(list, info.checkpoint_id.as_str());
    out.push(info);
    out
}

/// Law: after a checkpoint is recorded, the list names it exactly once, and
/// that entry is the one recorded; every other entry is kept.
pub proof fn lemma_record_then_lookup(list: Seq<CheckpointInfo>, info: CheckpointInfo)
    ensures
        ({
            let out = without_id(list, info.checkpoint_id@).push(info);
            &&& out.last() == info
            &&& forall|i: int|
                0 <= i < out.len() - 1 ==> out[i].checkpoint_id@ != info.checkpoint_id@
            &&& forall|c: CheckpointInfo|
                list.contains(c) && c.checkpoint_id@ != info.checkpoint_id@ ==> out.contains(c)
        }),
{
    let pred = other_id(info.checkpoint_id@);
    let kept = list.filter(pred);
    let out = kept.push(info);
    assert forall|i: int| 0 <= i < out.len() - 1 implies out[i].checkpoint_id@
        != info.checkpoint_id@ by {
        assert(out[i] == kept[i]);
        list.lemma_filter_pred(pred, i);
    }
    assert forall|c: CheckpointInfo|
        list.contains(c) && c.checkpoint_id@ != info.checkpoint_id@ implies out.contains(c) by {
        let i = choose|i: int| 0 <= i < list.len() && list[i] == c;
        list.lemma_filter_contains(pred, i);
        let j = choose|j: int| 0 <= j < kept.len() && kept[j] == c;
        assert(out[j] == c);
    }
}

/// Law: after a checkpoint is deleted, no entry of the list names it, and every
/// entry of another name is kept.
pub proof fn lemma_delete_then_lookup(list: Seq<CheckpointInfo>, id: Seq<char>)
    ensures
        forall|c: CheckpointInfo| without_id(list, id).contains(c) ==> c.checkpoint_id@ != id,
        forall|c: CheckpointInfo|
            list.contains(c) && c.checkpoint_id@ != id ==> without_id(list, id).contains(c),
{
    let pred = other_id(id);
    assert forall|c: CheckpointInfo| without_id(list, id).contains(c) implies c.checkpoint_id@
        != id by {
        let kept = list.filter(pred);
        let j = choose|j: int| 0 <= j < kept.len() && kept[j] == c;
        list.lemma_filter_pred(pred, j);
    }
    assert forall|c: CheckpointInfo|
        list.contains(c) && c.checkpoint_id@ != id implies without_id(list, id).contains(c) by {
        let i = choose|i: int| 0 <= i < list.len() && list[i] == c;
        list.lemma_filter_contains(pred, i);
    }
}

// ---------------------------------------------------------------------------
// The manager
// ---------------------------------------------------------------------------

/// The CRIU integration: where CRIU was found, if anywhere, and where
/// checkpoints are kept.
pub struct CriuManager {
    criu_path: Option<String>,
    available: bool,
    checkpoint_base_dir: String,
}

/// The default checkpoint root: `~/.lpm/checkpoints`, or `./checkpoints`.
pub open spec fn default_checkpoint_root(home: Option<Seq<char>>) -> Seq<char> {
    join_path(config_dir(home), "checkpoints"@)
}

impl CriuManager {
    pub closed spec fn spec_criu_path(&self) -> Option<String> {
        self.criu_path
    }

    pub closed spec fn spec_available(&self) -> bool {
        self.available
    }

    pub closed spec fn spec_base_dir(&self) -> String {
        self.checkpoint_base_dir
    }

    /// A manager for the CRIU binary found at `criu_path`, if any, keeping
    /// checkpoints below `checkpoint_base_dir`. CRIU is available exactly when
    /// it was found.
    pub fn new(criu_path: Option<String>, checkpoint_base_dir: String) -> (res: Self)
        ensures
            res.spec_criu_path() == criu_path,
            res.spec_available() == criu_path is Some,
            res.spec_base_dir() == checkpoint_base_dir,
    {
        let available = criu_path.is_some();
        CriuManager { criu_path, available, checkpoint_base_dir }
    }

    /// The default checkpoint root for the current user.
    pub fn default_base_dir() -> (res: String)
        ensures
            exists|home: Option<Seq<char>>| res@ == join_path(config_dir(home), "checkpoints"@),
    {
        let home = crate::paths::home_dir();
        let ghost h = match &home {
            Some(x) => Some(x@),
            None => None::<Seq<char>>,
        };
        let dir = config_dir_for(home);
        let res = join(dir.as_str(), "checkpoints");
        assert(res@ == join_path(config_dir(h), "checkpoints"@));
        res
    }

    pub fn is_available(&self) -> (res: bool)
        ensures
            res == self.spec_available(),
    {
        self.available
    }

    pub fn get_checkpoint_base_dir(&self) -> (res: &str)
        ensures
            res@ == self.spec_base_dir()@,
    {
        self.checkpoint_base_dir.as_str()
    }

    pub fn criu_path(&self) -> (res: Option<&str>)
        ensures
            match self.spec_criu_path() {
                Some(p) => res matches Some(r) && r@ == p@,
                None => res is None,
            },
    {
        match &self.criu_path {
            Some(p) => Some(p.as_str()),
            None => None,
        }
    }

    /// Whether a checkpoint may be taken: CRIU must be available and located.
    pub fn checkpoint_precheck(&self) -> (res: Result<(), String>)
        ensures
            res is Ok <==> self.spec_available() && self.spec_criu_path() is Some,
            !self.spec_available() ==> (res matches Err(m) && m@
                == "CRIU is not available on this system. Please install CRIU to use checkpoint functionality."@),
            self.spec_available() && self.spec_criu_path() is None ==> (res matches Err(m) && m@
                == "CRIU path not found"@),
    {
        if !self.available {
            return Err(
                owned(
                    "CRIU is not available on this system. Please install CRIU to use checkpoint functionality.",
                ),
            );
        }
        if self.criu_path.is_none() {
            return Err(owned("CRIU path not found"));
        }
        Ok(())
    }

    /// Whether a checkpoint may be restored: CRIU must be available and located.
    pub fn restore_precheck(&self) -> (res: Result<(), String>)
        ensures
            res is Ok <==> self.spec_available() && self.spec_criu_path() is Some,
            !self.spec_available() ==> (res matches Err(m) && m@
                == "CRIU is not available on this system."@),
            self.spec_available() && self.spec_criu_path() is None ==> (res matches Err(m) && m@
                == "CRIU path not found"@),
    {
        if !self.available {
            return Err(owned("CRIU is not available on this system."));
        }
        if self.criu_path.is_none() {
            return Err(owned("CRIU path not found"));
        }
        Ok(())
    }
}

} // verus!
