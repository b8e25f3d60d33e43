use vstd::prelude::*;

verus! {

/// Where a task reference points: a top-level task, or a task inside a project.
#[derive(Debug, Clone, PartialEq, Eq)]
pub enum TaskRef {
    TopLevel(String),
    Nested(String, String),
}

/// The value of a task reference.
pub enum TaskRefV {
    TopLevel(Seq<char>),
    Nested(Seq<char>, Seq<char>),
}

impl View for TaskRef {
    type V = TaskRefV;

    open spec fn view(&self) -> TaskRefV {
        match self {
            TaskRef::TopLevel(t) => TaskRefV::TopLevel(t@),
            TaskRef::Nested(p, t) => TaskRefV::Nested(p@, t@),
        }
    }
}

/// The separator between a project title and a task title in a compound reference.
pub open spec fn is_sep(c: char) -> bool {
    c == '/'
}

/// What the reference text `r` denotes: split at its first separator if it has one.
pub open spec fn ref_of(r: Seq<char>) -> TaskRefV {
    if exists|i: int| 0 <= i < r.len() && is_sep(#[trigger] r[i]) {
        let i = choose|i: int|
            0 <= i < r.len() && is_sep(#[trigger] r[i]) && forall|j: int|
                0 <= j < i ==> !is_sep(#[trigger] r[j]);
        TaskRefV::Nested(r.take(i), r.skip(i + 1))
    } else {
        TaskRefV::TopLevel(r)
    }
}

/// Relies on String::push: appends the character at the end.
#[verifier::external_body]
fn push_char(s: &mut String, c: char)
    ensures
        final(s)@ == old(s)@.push(c),
{
    s.push(c)
}

/// Parses a task reference: `project/task` names a task inside a project (split at the first
/// `/`), any other text a top-level task.
pub fn parse_ref(r: &str) -> (res: TaskRef)
    ensures
        res@ == ref_of(r@),
{
    let mut head = String::new();
    let mut tail = String::new();
    let mut seen = false;
    let ghost mut pos: int = 0;
    for c in it: r.chars()
        invariant
            it.seq() == r@,
            !seen ==> head@ == r@.take(it.index() as int) && tail@.len() == 0,
            !seen ==> forall|j: int| 0 <= j < it.index() ==> !is_sep(#[trigger] r@[j]),
            seen ==> 0 <= pos < it.index() && is_sep(r@[pos]) && head@ == r@.take(pos)
                && tail@ == r@.subrange(pos + 1, it.index() as int)
                && forall|j: int| 0 <= j < pos ==> !is_sep(#[trigger] r@[j]),
    {
        if seen {
            push_char(&mut tail, c);
        } else if c == '/' {
            seen = true;
            proof { pos = it.index() as int; }
        } else {
            push_char(&mut head, c);
        }
    }
    if seen {
        assert(is_sep(r@[pos]));
        let ghost i = choose|i: int|
            0 <= i < r@.len() && is_sep(#[trigger] r@[i]) && forall|j: int|
                0 <= j < i ==> !is_sep(#[trigger] r@[j]);
        assert(i == pos) by {
            if i < pos {
                assert(!is_sep(r@[i]));
            }
            if pos < i {
                assert(!is_sep(r@[pos]));
            }
        }
        assert(tail@ =~= r@.skip(pos + 1));
        TaskRef::Nested(head, tail)
    } else {
        assert(head@ =~= r@);
        TaskRef::TopLevel(head)
    }
}

} // verus!
