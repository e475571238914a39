//! The outcome of checking a condition: fatal failures, failures that a
//! repair can clear, and labelled groups of both.

use vstd::prelude::*;
use crate::slot::PciSlot;
use crate::text::{concat, lines_of, lines_spec, owned, views};

verus! {

/// A repair that the supervisor can perform on the host.
#[derive(Debug, Clone, PartialEq, Eq)]
pub enum RepairAction {
    /// Create the tap interface of this name.
    CreateTap(String),
    /// Detach the device at this slot from its driver and attach it to `ppt`.
    AttachPpt(PciSlot),
}

#[derive(Debug)]
pub enum Assertion {
    /// A failure that the supervisor can repair: scope, reason, repair.
    Recoverable(String, String, RepairAction),
    /// A failure that needs the operator: scope, reason.
    Fatal(String, String),
    /// Labelled failures of several conditions.
    Container(Vec<(String, Assertion)>),
}

pub open spec fn is_recoverable_spec(a: Assertion) -> bool
    decreases a,
{
    match a {
        Assertion::Fatal(_, _) => false,
        Assertion::Recoverable(_, _, _) => true,
        Assertion::Container(list) => all_recoverable(list@),
    }
}

/// Every assertion of `s` is recoverable.
pub open spec fn all_recoverable(s: Seq<(String, Assertion)>) -> bool
    decreases s,
{
    if s.len() == 0 {
        true
    } else {
        all_recoverable(s.drop_last()) && is_recoverable_spec(s.last().1)
    }
}

/// The repairs of `a`, in the order of its leaves.
pub open spec fn repairs_spec(a: Assertion) -> Seq<RepairAction>
    decreases a,
{
    match a {
        Assertion::Fatal(_, _) => Seq::empty(),
        Assertion::Recoverable(_, _, act) => seq![act],
        Assertion::Container(list) => repairs_list(list@),
    }
}

pub open spec fn repairs_list(s: Seq<(String, Assertion)>) -> Seq<RepairAction>
    decreases s,
{
    if s.len() == 0 {
        Seq::empty()
    } else {
        repairs_list(s.drop_last()) + repairs_spec(s.last().1)
    }
}

/// Number of failures (fatal or recoverable) in `a`.
pub open spec fn leaf_count(a: Assertion) -> nat
    decreases a,
{
    match a {
        Assertion::Fatal(_, _) => 1,
        Assertion::Recoverable(_, _, _) => 1,
        Assertion::Container(list) => leaf_count_list(list@),
    }
}

pub open spec fn leaf_count_list(s: Seq<(String, Assertion)>) -> nat
    decreases s,
{
    if s.len() == 0 {
        0
    } else {
        leaf_count_list(s.drop_last()) + leaf_count(s.last().1)
    }
}

/// `"\n  " + line` for every line of `t`.
pub open spec fn indented(ls: Seq<Seq<char>>) -> Seq<char>
    decreases ls.len(),
{
    if ls.len() == 0 {
        Seq::empty()
    } else {
        indented(ls.drop_last()) + "\n  "@ + ls.last()
    }
}

pub open spec fn prompt_spec(a: Assertion) -> Seq<char>
    decreases a,
{
    match a {
        Assertion::Fatal(_, _) => Seq::empty(),
        Assertion::Recoverable(obj, why, _) => obj@ + ": "@ + why@,
        Assertion::Container(list) => prompt_list(list@),
    }
}

/// The prompt of the leading recoverable entries of `s`, up to the first
/// entry that is not.
pub open spec fn prompt_list(s: Seq<(String, Assertion)>) -> Seq<char>
    decreases s,
{
    if s.len() == 0 {
        Seq::empty()
    } else {
        let p = prompt_list(s.drop_last());
        if all_recoverable(s) {
            p + s.last().0@ + ":"@ + indented(lines_spec(prompt_spec(s.last().1)))
        } else {
            p
        }
    }
}

/// The first line of a child is hung on a branch, the others on a rail.
pub open spec fn hung_lines(ls: Seq<Seq<char>>, last: bool) -> Seq<char>
    decreases ls.len(),
{
    if ls.len() == 0 {
        Seq::empty()
    } else if ls.len() == 1 {
        (if last {
            "└─"@
        } else {
            "├─"@
        }) + ls[0] + "\n"@
    } else {
        hung_lines(ls.drop_last(), last) + (if last {
            " "@
        } else {
            "|"@
        }) + "  "@ + ls.last() + "\n"@
    }
}

pub open spec fn print_spec(a: Assertion, scope: Seq<char>) -> Seq<char>
    decreases a,
{
    match a {
        Assertion::Fatal(loc, why) => "[fatal] "@ + loc@ + ": "@ + why@,
        Assertion::Recoverable(loc, why, _) => "[recoverable] "@ + loc@ + ": "@ + why@,
        Assertion::Container(list) => scope + "\n"@ + print_list(list@, list@.len() as int),
    }
}

/// The children of a container of `n` entries whose first `s.len()` are `s`.
pub open spec fn print_list(s: Seq<(String, Assertion)>, n: int) -> Seq<char>
    decreases s,
{
    if s.len() == 0 {
        Seq::empty()
    } else {
        print_list(s.drop_last(), n) + hung_lines(
            lines_spec(print_spec(s.last().1, s.last().0@)),
            s.len() == n,
        )
    }
}

/// For a container, recoverability is that of every child.
pub proof fn lemma_container_recoverable(cs: Seq<(String, Assertion)>)
    ensures
        all_recoverable(cs) <==> forall|i: int|
            0 <= i < cs.len() ==> is_recoverable_spec(#[trigger] cs[i].1),
    decreases cs.len(),
{
    if cs.len() > 0 {
        lemma_container_recoverable(cs.drop_last());
        assert(forall|i: int| 0 <= i < cs.len() - 1 ==> cs.drop_last()[i] == cs[i]);
    }
}

/// A recoverable assertion carries a repair for each of its failures, and
/// `recover` hands back exactly those.
pub proof fn lemma_recoverable_repairs_all(a: Assertion)
    ensures
        is_recoverable_spec(a) ==> repairs_spec(a).len() == leaf_count(a),
    decreases a,
{
    if let Assertion::Container(list) = a {
        lemma_recoverable_repairs_all_list(list@);
    }
}

pub proof fn lemma_recoverable_repairs_all_list(s: Seq<(String, Assertion)>)
    ensures
        all_recoverable(s) ==> repairs_list(s).len() == leaf_count_list(s),
    decreases s,
{
    if s.len() > 0 {
        lemma_recoverable_repairs_all_list(s.drop_last());
        lemma_recoverable_repairs_all(s.last().1);
    }
}

impl RepairAction {
    /// A copy equal to `self`.
    pub fn duplicate(&self) -> (r: RepairAction)
        ensures
            r == *self,
    {
        match self {
            RepairAction::CreateTap(name) => RepairAction::CreateTap(name.clone()),
            RepairAction::AttachPpt(slot) => RepairAction::AttachPpt(*slot),
        }
    }
}

impl Assertion {
    pub fn is_recoverable(&self) -> (r: bool)
        ensures
            r == is_recoverable_spec(*self),
        decreases self,
    {
        match self {
            Assertion::Fatal(_, _) => false,
            Assertion::Recoverable(_, _, _) => true,
            Assertion::Container(list) => {
                let mut i: usize = 0;
                while i < list.len()
                    invariant
                        *self == Assertion::Container(*list),
                        i <= list@.len(),
                        all_recoverable(list@.subrange(0, i as int)),
                    decreases list@.len() - i,
                {
                    proof {
                        assert(list@.subrange(0, i + 1).drop_last() == list@.subrange(0, i as int));
                    }
                    proof {
                        lemma_child_decreases(*self, *list, i as int);
                    }
                    if !list[i].1.is_recoverable() {
                        proof {
                            lemma_container_recoverable(list@);
                            assert(!is_recoverable_spec(list@[i as int].1));
                        }
                        return false;
                    }
                    i = i + 1;
                }
                proof {
                    assert(list@.subrange(0, list@.len() as int) == list@);
                }
                true
            },
        }
    }

    /// The repairs to perform, in the order of the leaves; none for a
    /// fatal failure.
    pub fn recover(&self) -> (r: Vec<RepairAction>)
        ensures
            r@ == repairs_spec(*self),
        decreases self,
    {
        match self {
            Assertion::Fatal(_, _) => Vec::new(),
            Assertion::Recoverable(_, _, act) => {
                let mut v = Vec::new();
                v.push(act.duplicate());
                proof {
                    assert(v@ == seq![*act]);
                }
                v
            },
            Assertion::Container(list) => {
                let mut out: Vec<RepairAction> = Vec::new();
                let mut i: usize = 0;
                while i < list.len()
                    invariant
                        *self == Assertion::Container(*list),
                        i <= list@.len(),
                        out@ == repairs_list(list@.subrange(0, i as int)),
                    decreases list@.len() - i,
                {
                    proof {
                        assert(list@.subrange(0, i + 1).drop_last() == list@.subrange(0, i as int));
                    }
                    proof {
                        lemma_child_decreases(*self, *list, i as int);
                    }
                    let mut sub = list[i].1.recover();
                    out.append(&mut sub);
                    i = i + 1;
                }
                proof {
                    assert(list@.subrange(0, list@.len() as int) == list@);
                }
                out
            },
        }
    }

    /// The text of a confirmation question for the leading recoverable
    /// failures.
    pub fn recovery_prompt(&self) -> (r: String)
        ensures
            r@ == prompt_spec(*self),
        decreases self,
    {
        match self {
            Assertion::Fatal(_, _) => String::new(),
            Assertion::Recoverable(obj, why, _) => {
                let s = concat(owned(obj.as_str()), ": ");
                concat(s, why.as_str())
            },
            Assertion::Container(list) => {
                let mut base = String::new();
                let mut i: usize = 0;
                while i < list.len()
                    invariant
                        *self == Assertion::Container(*list),
                        i <= list@.len(),
                        all_recoverable(list@.subrange(0, i as int)),
                        base@ == prompt_list(list@.subrange(0, i as int)),
                    decreases list@.len() - i,
                {
                    let ghost pre = list@.subrange(0, i + 1);
                    proof {
                        assert(pre.drop_last() == list@.subrange(0, i as int));
                    }
                    proof {
                        lemma_child_decreases(*self, *list, i as int);
                    }
                    if !list[i].1.is_recoverable() {
                        proof {
                            lemma_prompt_stops(list@, i as int);
                        }
                        return base;
                    }
                    base = concat(base, list[i].0.as_str());
                    base = concat(base, ":");
                    let sub = list[i].1.recovery_prompt();
                    let ls = lines_of(sub.as_str());
                    let mut j: usize = 0;
                    let ghost b0 = base@;
                    while j < ls.len()
                        invariant
                            j <= ls@.len(),
                            base@ == b0 + indented(views(ls@).subrange(0, j as int)),
                        decreases ls@.len() - j,
                    {
                        proof {
                            assert(views(ls@).subrange(0, j + 1).drop_last() == views(ls@).subrange(0, j as int));
                        }
                        base = concat(base, "\n  ");
                        base = concat(base, ls[j].as_str());
                        proof {
                            assert(b0 + indented(views(ls@).subrange(0, j as int)) + "\n  "@ + ls@[j as int]@
                                == b0 + (indented(views(ls@).subrange(0, j as int)) + "\n  "@ + ls@[j as int]@));
                        }
                        j = j + 1;
                    }
                    proof {
                        assert(views(ls@).subrange(0, ls@.len() as int) == views(ls@));
                        assert(base@ == prompt_list(list@.subrange(0, i as int)) + list@[i as int].0@ + ":"@ + indented(lines_spec(prompt_spec(list@[i as int].1))));
                    }
                    i = i + 1;
                }
                proof {
                    assert(list@.subrange(0, list@.len() as int) == list@);
                }
                base
            },
        }
    }

    /// Renders the tree: a container prints `scope`, then each child
    /// hung on `├─` or, for the last, `└─`.
    pub fn print(&self, scope: String) -> (r: String)
        ensures
            r@ == print_spec(*self, scope@),
        decreases self,
    {
        match self {
            Assertion::Fatal(loc, why) => {
                let s = concat(owned("[fatal] "), loc.as_str());
                let s = concat(s, ": ");
                concat(s, why.as_str())
            },
            Assertion::Recoverable(loc, why, _) => {
                let s = concat(owned("[recoverable] "), loc.as_str());
                let s = concat(s, ": ");
                concat(s, why.as_str())
            },
            Assertion::Container(list) => {
                let mut value = concat(scope, "\n");
                let n = list.len();
                let ghost v0 = value@;
                let mut i: usize = 0;
                while i < n
                    invariant
                        *self == Assertion::Container(*list),
                        n == list@.len(),
                        i <= n,
                        value@ == v0 + print_list(list@.subrange(0, i as int), n as int),
                    decreases n - i,
                {
                    proof {
                        assert(list@.subrange(0, i + 1).drop_last() == list@.subrange(0, i as int));
                    }
                    let last = i == n - 1;
                    proof {
                        lemma_child_decreases(*self, *list, i as int);
                    }
                    let p = list[i].1.print(owned(list[i].0.as_str()));
                    let ls = lines_of(p.as_str());
                    let ghost vi = value@;
                    let mut j: usize = 0;
                    while j < ls.len()
                        invariant
                            j <= ls@.len(),
                            value@ == vi + hung_lines(views(ls@).subrange(0, j as int), last),
                        decreases ls@.len() - j,
                    {
                        let ghost ws = views(ls@).subrange(0, j + 1);
                        proof {
                            assert(ws.drop_last() == views(ls@).subrange(0, j as int));
                        }
                        if j == 0 {
                            value = concat(value, if last { "└─" } else { "├─" });
                        } else {
                            value = concat(value, if last { " " } else { "|" });
                            value = concat(value, "  ");
                        }
                        value = concat(value, ls[j].as_str());
                        value = concat(value, "\n");
                        proof {
                            if j == 0 {
                                assert(ws.len() == 1);
                                assert(ws[0] == ls@[0]@);
                                assert(vi + hung_lines(views(ls@).subrange(0, 0), last) == vi);
                            }
                        }
                        j = j + 1;
                    }
                    proof {
                        assert(views(ls@).subrange(0, ls@.len() as int) == views(ls@));
                    }
                    i = i + 1;
                }
                proof {
                    assert(list@.subrange(0, n as int) == list@);
                }
                value
            },
        }
    }

    /// A fatal failure that reports an I/O error.
    pub fn from_io_error(err: String) -> (r: Assertion)
        ensures
            r matches Assertion::Fatal(scope, why) && scope@ == "std::io::error"@ && why@ == err@,
    {
        Assertion::Fatal(owned("std::io::error"), err)
    }
}

proof fn lemma_child_decreases(a: Assertion, list: Vec<(String, Assertion)>, i: int)
    requires
        a == Assertion::Container(list),
        0 <= i < list@.len(),
    ensures
        decreases_to!(a => list@[i].1),
{
    assert(decreases_to!(a => a->Container_0));
    assert(decreases_to!(list => list@));
    assert(decreases_to!(list@ => list@[i]));
    assert(decreases_to!(list@[i] => list@[i].1));
}

/// Once an entry is not recoverable, the prompt of the entries up to any
/// later point is that of the entries before it.
proof fn lemma_prompt_stops(s: Seq<(String, Assertion)>, i: int)
    requires
        0 <= i < s.len(),
        !is_recoverable_spec(s[i].1),
    ensures
        prompt_list(s) == prompt_list(s.subrange(0, i)),
    decreases s.len(),
{
    if s.len() - 1 > i {
        lemma_prompt_stops(s.drop_last(), i);
        assert(s.drop_last().subrange(0, i) == s.subrange(0, i));
        lemma_container_recoverable(s);
    } else {
        assert(s.drop_last() == s.subrange(0, i));
        lemma_container_recoverable(s);
    }
}

} // verus!
