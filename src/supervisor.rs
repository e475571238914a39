//! The decisions of the supervision loop: which description a session
//! runs, whether a failed condition is repaired, whether the hypervisor
//! may start, and whether the guest is rebooted. The loop itself, which
//! runs processes and talks to the operator, lives with the program.

use vstd::prelude::*;
use crate::assertion::{is_recoverable_spec, prompt_spec, Assertion};
use crate::error::FormatError;
use crate::host::FsKind;
use crate::numeric::{parse_unsigned, unsigned_spec};
use crate::spec::{consume_spec, same_mod, same_spec, target_index, VmSpec, VmSpecMod};
use crate::text::{concat, owned, split_char, split_spec, str_eq, views};

verus! {

/// The exit codes after which the guest is rebooted.
#[derive(Debug)]
pub struct ArgVec {
    pub vec: Vec<i32>,
}

impl ArgVec {
    pub fn contains(&self, val: &i32) -> (r: bool)
        ensures
            r == self.vec@.contains(*val),
    {
        let mut i: usize = 0;
        while i < self.vec.len()
            invariant
                i <= self.vec@.len(),
                forall|j: int| 0 <= j < i ==> self.vec@[j] != *val,
            decreases self.vec@.len() - i,
        {
            if self.vec[i] == *val {
                assert(self.vec@[i as int] == *val);
                return true;
            }
            i = i + 1;
        }
        false
    }
}

/// A decimal `i32` with an optional sign, as `str::parse` reads it.
pub open spec fn dec_i32_spec(s: Seq<char>) -> Option<i32> {
    if s.len() > 0 && s[0] == '-' {
        match unsigned_spec(s.subrange(1, s.len() as int), 10) {
            Some(v) => if v <= 0x8000_0000 && !(s.len() > 1 && s[1] == '+') {
                Some((-(v as int)) as i32)
            } else {
                None
            },
            None => None,
        }
    } else {
        match unsigned_spec(s, 10) {
            Some(v) => if v <= 0x7fff_ffff {
                Some(v as i32)
            } else {
                None
            },
            None => None,
        }
    }
}

pub fn parse_i32(s: &str) -> (r: Option<i32>)
    ensures
        r == dec_i32_spec(s@),
{
    let n = s.unicode_len();
    if n > 0 && s.get_char(0) == '-' {
        if n > 1 && s.get_char(1) == '+' {
            return None;
        }
        match parse_unsigned(s.substring_char(1, n), 10) {
            Some(v) => {
                if v <= 0x8000_0000 {
                    Some((0i64 - v as i64) as i32)
                } else {
                    None
                }
            },
            None => None,
        }
    } else {
        match parse_unsigned(s, 10) {
            Some(v) => {
                if v <= 0x7fff_ffff {
                    Some(v as i32)
                } else {
                    None
                }
            },
            None => None,
        }
    }
}

/// The codes of a comma-separated list, each a decimal `i32`.
pub open spec fn codes_spec(ps: Seq<Seq<char>>) -> Option<Seq<i32>>
    decreases ps.len(),
{
    if ps.len() == 0 {
        Some(Seq::empty())
    } else {
        match (codes_spec(ps.drop_last()), dec_i32_spec(ps.last())) {
            (Some(r), Some(v)) => Some(r.push(v)),
            _ => None,
        }
    }
}

/// Reads a list such as `0,1` of exit codes.
pub fn arg_to_vec(s: &str) -> (r: Result<ArgVec, &'static str>)
    ensures
        match codes_spec(split_spec(s@, ',')) {
            Some(v) => r matches Ok(a) && a.vec@ == v,
            None => r is Err,
        },
{
    let parts = split_char(s, ',');
    let mut vec: Vec<i32> = Vec::new();
    let mut i: usize = 0;
    proof {
        assert(views(parts@).subrange(0, 0) == Seq::<Seq<char>>::empty());
    }
    while i < parts.len()
        invariant
            i <= parts@.len(),
            views(parts@) == split_spec(s@, ','),
            codes_spec(views(parts@).subrange(0, i as int)) == Some(vec@),
        decreases parts@.len() - i,
    {
        let ghost pre = views(parts@).subrange(0, i + 1);
        proof {
            assert(pre.drop_last() == views(parts@).subrange(0, i as int));
            assert(pre.last() == parts@[i as int]@);
        }
        match parse_i32(parts[i].as_str()) {
            Some(v) => {
                vec.push(v);
            },
            None => {
                proof {
                    lemma_codes_stay_none(views(parts@), i as int + 1);
                    assert(views(parts@).subrange(0, parts@.len() as int) == views(parts@));
                }
                return Err("invalid value encountered while parsing i32 list");
            },
        }
        i = i + 1;
    }
    proof {
        assert(views(parts@).subrange(0, parts@.len() as int) == views(parts@));
    }
    Ok(ArgVec { vec })
}

proof fn lemma_codes_stay_none(ps: Seq<Seq<char>>, k: int)
    requires
        0 <= k <= ps.len(),
        codes_spec(ps.subrange(0, k)) is None,
    ensures
        codes_spec(ps) is None,
    decreases ps.len() - k,
{
    if k < ps.len() {
        assert(ps.subrange(0, k + 1).drop_last() == ps.subrange(0, k));
        lemma_codes_stay_none(ps, k + 1);
    } else {
        assert(ps.subrange(0, k) == ps);
    }
}

/// An answer to a yes/no question is yes when it starts with `y` or `Y`.
pub open spec fn is_yes(answer: Seq<char>) -> bool {
    answer.len() > 0 && (answer[0] == 'y' || answer[0] == 'Y')
}

pub fn answer_is_yes(answer: &str) -> (r: bool)
    ensures
        r == is_yes(answer@),
{
    answer.unicode_len() > 0 && (answer.get_char(0) == 'y' || answer.get_char(0) == 'Y')
}

/// What to do with a failed condition of a device.
#[derive(Debug)]
pub enum RecoveryDecision {
    /// The failure cannot be repaired.
    Skip,
    /// Repair without asking.
    Repair,
    /// Ask the operator with this question first.
    Ask(String),
}

/// Repairs a recoverable failure when the entry consents (`want_fix`) or
/// repairs are forced; otherwise the operator is asked.
pub fn recovery_decision(a: &Assertion, want_fix: bool, force: bool) -> (r: RecoveryDecision)
    ensures
        !is_recoverable_spec(*a) ==> r is Skip,
        is_recoverable_spec(*a) && (want_fix || force) ==> r is Repair,
        is_recoverable_spec(*a) && !want_fix && !force ==> (r matches RecoveryDecision::Ask(q)
            && q@ == prompt_spec(*a)),
{
    if !a.is_recoverable() {
        RecoveryDecision::Skip
    } else if want_fix || force {
        RecoveryDecision::Repair
    } else {
        RecoveryDecision::Ask(a.recovery_prompt())
    }
}

/// The question put to the operator for a recoverable failure.
pub fn question_text(prompt: &String) -> (r: String)
    ensures
        r@ == prompt@ + "? [y/N] (default: No)"@,
{
    concat(owned(prompt.as_str()), "? [y/N] (default: No)")
}

/// The hypervisor may start unless the conditions failed in a way that
/// no repair can clear.
pub fn launch_allowed(check: &Result<(), Assertion>) -> (r: bool)
    ensures
        r == match *check {
            Ok(()) => true,
            Err(a) => is_recoverable_spec(a),
        },
{
    match check {
        Ok(()) => true,
        Err(a) => a.is_recoverable(),
    }
}

/// How the reboot loop is bounded.
#[derive(Debug)]
pub struct RebootPolicy {
    /// At most this many reboots; no bound when absent.
    pub max_reboots: Option<usize>,
    pub reboot_on: ArgVec,
    pub no_reboot: bool,
    pub dry_run: bool,
}

/// What follows a session.
#[derive(Debug, PartialEq, Eq, Structural)]
pub enum AfterSession {
    /// Run another session.
    Reboot,
    /// Stop with the hypervisor's exit code.
    Exit(i32),
    /// Stop: the session itself failed.
    Fail,
}

/// The guest is rebooted when fewer reboots than allowed have happened,
/// its exit code is one of `reboot_on`, and neither `no_reboot` nor
/// `dry_run` is set; `session` is `None` for a session that failed.
pub open spec fn after_session_spec(p: RebootPolicy, reboot_count: usize, session: Option<i32>) -> AfterSession {
    match session {
        None => AfterSession::Fail,
        Some(ec) => if reboot_count < match p.max_reboots {
            Some(m) => m,
            None => usize::MAX,
        } && p.reboot_on.vec@.contains(ec) && !p.no_reboot && !p.dry_run {
            AfterSession::Reboot
        } else {
            AfterSession::Exit(ec)
        },
    }
}

pub fn after_session(policy: &RebootPolicy, reboot_count: usize, session: Option<i32>) -> (r: AfterSession)
    ensures
        r == after_session_spec(*policy, reboot_count, session),
{
    match session {
        None => AfterSession::Fail,
        Some(ec) => {
            let max = match policy.max_reboots {
                Some(m) => m,
                None => usize::MAX,
            };
            if reboot_count < max && policy.reboot_on.contains(&ec) && !policy.no_reboot
                && !policy.dry_run {
                AfterSession::Reboot
            } else {
                AfterSession::Exit(ec)
            }
        },
    }
}

/// The exit code of the supervisor for what the loop ended with: the
/// hypervisor's own, or 4 for a failure.
pub fn exit_code_of(end: &AfterSession) -> (r: i32)
    ensures
        r == match *end {
            AfterSession::Exit(ec) => ec,
            _ => 4,
        },
{
    match end {
        AfterSession::Exit(ec) => *ec,
        _ => 4,
    }
}

/// Prepares the description of the next session. With a `target`, the
/// name `default`, when no overlay has it, returns to `root`; any other
/// name applies its overlay. Returns the target named next.
pub fn apply_target(current: &mut VmSpec, root: &VmSpec, target: &Option<String>) -> (r: Result<Option<String>, FormatError>)
    ensures
        match *target {
            None => r == Ok::<Option<String>, FormatError>(final(current).next_target) && *final(current) == *old(current),
            Some(t) => if t@ == "default"@ && target_index(old(current).targets@, t@) == old(current).targets@.len() {
                same_spec(*final(current), *root) && r == Ok::<Option<String>, FormatError>(final(current).next_target)
            } else if target_index(old(current).targets@, t@) == old(current).targets@.len() {
                r matches Err(FormatError::ProfileNotFound)
            } else {
                &&& r == Ok::<Option<String>, FormatError>(final(current).next_target)
                &&& exists|m: VmSpecMod| same_mod(m, old(current).targets@[target_index(old(current).targets@, t@)].1) && consume_spec(*old(current), m, *final(current))
            },
        },
        old(current).wf() && root.wf() ==> final(current).wf(),
{
    match target {
        Some(t) => {
            proof {
                crate::spec::lemma_target_index(current.targets@, t@);
            }
            if str_eq(t.as_str(), "default") && !current.has_target(t) {
                *current = root.duplicate();
            } else {
                match current.consume_target(t) {
                    Ok(()) => {},
                    Err(e) => {
                        return Err(e);
                    },
                }
            }
        },
        None => {},
    }
    Ok(crate::emulation::clone_opt(&current.next_target))
}

/// How to open the supervisor's or the hypervisor's PID file.
#[derive(Debug, PartialEq, Eq, Structural)]
pub enum PidFileOpen {
    /// Open the existing file for writing, without truncating it.
    Existing,
    /// Create the file.
    Create,
}

/// Decides how to open a PID file from what its path names: an existing
/// regular file that is writable is opened, a missing one with a parent
/// directory is created; anything else is refused with a reason.
pub fn pid_file_action(path: &str, kind: FsKind, readonly: bool, has_parent: bool) -> (r: Result<PidFileOpen, String>)
    ensures
        kind == FsKind::Absent ==> (if has_parent {
            r == Ok::<PidFileOpen, String>(PidFileOpen::Create)
        } else {
            r matches Err(m) && m@ == "Parent to \""@ + path@ + "\" is not available"@
        }),
        kind != FsKind::Absent && kind != FsKind::File ==> (r matches Err(m) && m@ == "\""@ + path@ + "\" is not a regular file"@),
        kind == FsKind::File && readonly ==> (r matches Err(m) && m@ == "\""@ + path@ + "\" is not writable"@),
        kind == FsKind::File && !readonly ==> r == Ok::<PidFileOpen, String>(PidFileOpen::Existing),
{
    if kind == FsKind::Absent {
        if has_parent {
            Ok(PidFileOpen::Create)
        } else {
            Err(concat(concat(owned("Parent to \""), path), "\" is not available"))
        }
    } else if kind != FsKind::File {
        Err(concat(concat(owned("\""), path), "\" is not a regular file"))
    } else if readonly {
        Err(concat(concat(owned("\""), path), "\" is not writable"))
    } else {
        Ok(PidFileOpen::Existing)
    }
}

} // verus!
