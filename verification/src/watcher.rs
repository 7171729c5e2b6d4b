//! The phase watcher: decides, from the phase last stored and the phase now
//! reported, whether to store the new phase and whether to dispatch a workflow.
use vstd::prelude::*;
use crate::text::{chars_of, owned, text_eq, trim, trim_start, trim_end, is_space, trimmed_range};

verus! {

/// What one poll of the status endpoint calls for.
#[derive(Debug, PartialEq, Eq)]
pub enum Decision {
    /// Phase unchanged; do nothing.
    NoOp,
    /// Phase changed but the new phase is not a trigger; just persist.
    UpdateOnly { to: String },
    /// Phase changed and new phase is a trigger; dispatch + persist.
    Dispatch { from: String, to: String },
}

/// [`Decision`] with its texts as character sequences.
pub enum DecisionView {
    NoOp,
    UpdateOnly { to: Seq<char> },
    Dispatch { from: Seq<char>, to: Seq<char> },
}

impl View for Decision {
    type V = DecisionView;

    open spec fn view(&self) -> DecisionView {
        match self {
            Decision::NoOp => DecisionView::NoOp,
            Decision::UpdateOnly { to } => DecisionView::UpdateOnly { to: to@ },
            Decision::Dispatch { from, to } => DecisionView::Dispatch { from: from@, to: to@ },
        }
    }
}

/// The decision for a poll: nothing when the phase is the one stored; else
/// store it, and dispatch too when it is one of the trigger phases (reporting
/// the previous phase, or `none` when nothing was stored).
pub open spec fn decision_of(previous: Option<Seq<char>>, current: Seq<char>, triggers: Seq<Seq<char>>) -> DecisionView {
    if previous == Some(current) {
        DecisionView::NoOp
    } else if triggers.contains(current) {
        DecisionView::Dispatch {
            from: match previous {
                Some(p) => p,
                None => "none"@,
            },
            to: current,
        }
    } else {
        DecisionView::UpdateOnly { to: current }
    }
}

/// The texts of a run of strings.
pub open spec fn texts(v: Seq<String>) -> Seq<Seq<char>> {
    v.map_values(|s: String| s@)
}

/// Pure decision function — unit-tested without any network or env.
pub fn decide(previous: Option<&str>, current: &str, triggers: &[String]) -> (d: Decision)
    ensures
        d@ == decision_of(
            match previous {
                Some(p) => Some(p@),
                None => None,
            },
            current@,
            texts(triggers@),
        ),
{
    if let Some(p) = previous {
        if text_eq(p, current) {
            return Decision::NoOp;
        }
    }
    proof { reveal_strlit("none"); }
    let from = match previous {
        Some(p) => owned(p),
        None => owned("none"),
    };
    let mut i: usize = 0;
    let mut found = false;
    while i < triggers.len()
        invariant
            i <= triggers.len(),
            found == exists|j: int| 0 <= j < i && triggers@[j]@ == current@,
        decreases triggers.len() - i,
    {
        if text_eq(triggers[i].as_str(), current) {
            found = true;
        }
        i += 1;
    }
    proof {
        let ts = texts(triggers@);
        if found {
            let j = choose|j: int| 0 <= j < triggers.len() && triggers@[j]@ == current@;
            assert(ts[j] == current@);
        } else {
            assert forall|j: int| 0 <= j < ts.len() implies ts[j] != current@ by {
                assert(ts[j] == triggers@[j]@);
            }
        }
    }
    if found {
        Decision::Dispatch { from, to: owned(current) }
    } else {
        Decision::UpdateOnly { to: owned(current) }
    }
}

/// The pieces of `s` between separators (`str::split`): one more piece than
/// there are separators, empty pieces included.
pub open spec fn split_on(s: Seq<char>, sep: char) -> Seq<Seq<char>>
    decreases s.len(),
{
    if s.len() == 0 {
        seq![Seq::empty()]
    } else {
        let rest = split_on(s.drop_last(), sep);
        if s.last() == sep {
            rest.push(Seq::empty())
        } else {
            rest.update(rest.len() - 1, rest.last().push(s.last()))
        }
    }
}

pub proof fn lemma_split_nonempty(s: Seq<char>, sep: char)
    ensures
        split_on(s, sep).len() >= 1,
    decreases s.len(),
{
    if s.len() > 0 {
        lemma_split_nonempty(s.drop_last(), sep);
    }
}

/// The pieces trimmed of whitespace, the empty ones left out.
pub open spec fn nonblank_trimmed(pieces: Seq<Seq<char>>) -> Seq<Seq<char>>
    decreases pieces.len(),
{
    if pieces.len() == 0 {
        Seq::empty()
    } else {
        let before = nonblank_trimmed(pieces.drop_last());
        if trim(pieces.last()).len() > 0 {
            before.push(trim(pieces.last()))
        } else {
            before
        }
    }
}

/// The trigger phases named in a comma-separated list.
pub open spec fn triggers_of(raw: Seq<char>) -> Seq<Seq<char>> {
    nonblank_trimmed(split_on(raw, ','))
}

/// Splits a comma-separated list of phases, trimming each and dropping the
/// empty ones.
pub fn parse_triggers(raw: &str) -> (v: Vec<String>)
    ensures
        texts(v@) == triggers_of(raw@),
{
    let cs = chars_of(raw);
    let mut out: Vec<String> = Vec::new();
    let mut start: usize = 0;
    let mut i: usize = 0;
    proof {
        assert(cs@.take(0) =~= Seq::<char>::empty());
        assert(split_on(cs@.take(0), ',').drop_last() =~= Seq::<Seq<char>>::empty());
        assert(cs@.subrange(0, 0) =~= Seq::<char>::empty());
    }
    while i < cs.len()
        invariant
            start <= i <= cs.len(),
            cs@ == raw@,
            split_on(cs@.take(i as int), ',').len() >= 1,
            split_on(cs@.take(i as int), ',').last() == cs@.subrange(start as int, i as int),
            texts(out@) == nonblank_trimmed(split_on(cs@.take(i as int), ',').drop_last()),
        decreases cs.len() - i,
    {
        let ghost old_split = split_on(cs@.take(i as int), ',');
        let ghost old_out = texts(out@);
        proof {
            assert(cs@.take(i + 1).drop_last() =~= cs@.take(i as int));
            assert(cs@.take(i + 1).last() == cs@[i as int]);
            lemma_split_nonempty(cs@.take(i as int), ',');
        }
        if cs[i] == ',' {
            let piece = trimmed_range(&cs, start, i);
            proof {
                let ns = split_on(cs@.take(i + 1), ',');
                assert(ns == old_split.push(Seq::empty()));
                assert(ns.drop_last() =~= old_split);
                assert(old_split =~= old_split.drop_last().push(old_split.last()));
            }
            if piece.unicode_len() > 0 {
                out.push(piece);
                assert(texts(out@) =~= old_out.push(trim(old_split.last())));
            } else {
                assert(texts(out@) =~= old_out);
            }
            start = i + 1;
            proof {
                assert(cs@.subrange(start as int, i + 1) =~= Seq::<char>::empty());
            }
        } else {
            proof {
                let ns = split_on(cs@.take(i + 1), ',');
                assert(ns.drop_last() =~= old_split.drop_last());
                assert(ns.last() =~= cs@.subrange(start as int, i + 1));
            }
        }
        i += 1;
    }
    let last = trimmed_range(&cs, start, cs.len());
    let ghost all = split_on(cs@.take(cs.len() as int), ',');
    let ghost before = texts(out@);
    proof {
        assert(cs@.take(cs.len() as int) =~= cs@);
        assert(all =~= all.drop_last().push(all.last()));
    }
    if last.unicode_len() > 0 {
        out.push(last);
        assert(texts(out@) =~= before.push(trim(all.last())));
    } else {
        assert(texts(out@) =~= before);
    }
    out
}

/// The GitHub API address that dispatches `workflow` of `owner/repo`.
pub fn dispatch_url(owner: &str, repo: &str, workflow: &str) -> (u: String)
    ensures
        u@ == "https://api.github.com/repos/"@ + owner@ + "/"@ + repo@ + "/actions/workflows/"@ + workflow@
            + "/dispatches"@,
{
    let mut u = owned("https://api.github.com/repos/");
    u.append(owner);
    u.append("/");
    u.append(repo);
    u.append("/actions/workflows/");
    u.append(workflow);
    u.append("/dispatches");
    u
}

/// The `Authorization` header value for a token.
pub fn bearer(token: &str) -> (h: String)
    ensures
        h@ == "Bearer "@ + token@,
{
    let mut h = owned("Bearer ");
    h.append(token);
    h
}

/// Whether the status endpoint answered with a success code (2xx).
pub fn status_fetch_ok(code: u16) -> (ok: bool)
    ensures
        ok == (200 <= code < 300),
{
    !(code < 200 || code >= 300)
}

/// Whether GitHub accepted the dispatch (it answers 204).
pub fn dispatch_ok(code: u16) -> (ok: bool)
    ensures
        ok == (code == 204),
{
    code == 204
}

/// The phase to store after acting on a decision: none for [`Decision::NoOp`];
/// the new phase for [`Decision::UpdateOnly`]; for [`Decision::Dispatch`], the
/// new phase only once the dispatch was accepted, so that a failed dispatch is
/// tried again at the next poll.
pub open spec fn stored_after(d: DecisionView, dispatched: bool) -> Option<Seq<char>> {
    match d {
        DecisionView::NoOp => None,
        DecisionView::UpdateOnly { to } => Some(to),
        DecisionView::Dispatch { to, .. } => if dispatched { Some(to) } else { None },
    }
}

/// What to write to the phase store once `d` has been acted on; `dispatched`
/// tells whether the workflow dispatch (made for [`Decision::Dispatch`] only)
/// was accepted.
pub fn phase_to_store(d: &Decision, dispatched: bool) -> (r: Option<String>)
    ensures
        r matches Some(s) ==> stored_after(d@, dispatched) == Some(s@),
        r is None ==> stored_after(d@, dispatched) is None,
{
    match d {
        Decision::NoOp => None,
        Decision::UpdateOnly { to } => Some(owned(to.as_str())),
        Decision::Dispatch { to, .. } => if dispatched { Some(owned(to.as_str())) } else { None },
    }
}

/// Each trigger phase is dispatched at least once: a phase whose dispatch was
/// not accepted is not stored, so the next poll that reports it dispatches
/// again; once stored, the same report calls for nothing.
pub proof fn lemma_dispatch_at_least_once(
    previous: Option<Seq<char>>,
    current: Seq<char>,
    triggers: Seq<Seq<char>>,
    dispatched: bool,
)
    ensures
        ({
            let d = decision_of(previous, current, triggers);
            let next = match stored_after(d, dispatched) {
                Some(s) => Some(s),
                None => previous,
            };
            &&& (d is Dispatch && !dispatched) ==> decision_of(next, current, triggers) is Dispatch
            &&& stored_after(d, dispatched) is Some ==> decision_of(next, current, triggers) is NoOp
            &&& (triggers.contains(current) && previous != Some(current)) ==> (
                stored_after(d, dispatched) is Some <==> dispatched)
        }),
{
}

/// A poll that sees the stored phase again does nothing; a phase that differs
/// from the stored one is always stored, and dispatches exactly when it is a
/// trigger.
pub proof fn lemma_decision_laws(previous: Option<Seq<char>>, current: Seq<char>, triggers: Seq<Seq<char>>)
    ensures
        previous == Some(current) ==> decision_of(previous, current, triggers) is NoOp,
        previous != Some(current) ==> match decision_of(previous, current, triggers) {
            DecisionView::NoOp => false,
            DecisionView::UpdateOnly { to } => to == current && !triggers.contains(current),
            DecisionView::Dispatch { to, .. } => to == current && triggers.contains(current),
        },
        triggers.len() == 0 ==> !(decision_of(previous, current, triggers) is Dispatch),
{
}

/// A decision is idempotent: once the phase it stores is the stored one, the
/// same report calls for nothing.
pub proof fn lemma_decision_idempotent(previous: Option<Seq<char>>, current: Seq<char>, triggers: Seq<Seq<char>>)
    ensures
        match decision_of(previous, current, triggers) {
            DecisionView::NoOp => true,
            DecisionView::UpdateOnly { to } => decision_of(Some(to), current, triggers) is NoOp,
            DecisionView::Dispatch { to, .. } => decision_of(Some(to), current, triggers) is NoOp,
        },
{
}

proof fn lemma_trim_end_edges(s: Seq<char>)
    ensures
        trim_end(s).len() <= s.len(),
        trim_end(s).len() > 0 ==> !is_space(trim_end(s).last()) && trim_end(s)[0] == s[0],
    decreases s.len(),
{
    if s.len() > 0 && is_space(s.last()) {
        lemma_trim_end_edges(s.drop_last());
    }
}

proof fn lemma_trim_start_edges(s: Seq<char>)
    ensures
        trim_start(s).len() > 0 ==> !is_space(trim_start(s)[0]),
    decreases s.len(),
{
    if s.len() > 0 && is_space(s[0]) {
        lemma_trim_start_edges(s.drop_first());
    }
}

/// Every trigger parsed is non-empty and neither starts nor ends with whitespace.
pub proof fn lemma_triggers_trimmed(raw: Seq<char>)
    ensures
        forall|i: int|
            0 <= i < triggers_of(raw).len() ==> {
                let t = #[trigger] triggers_of(raw)[i];
                &&& t.len() > 0
                &&& !is_space(t[0])
                &&& !is_space(t.last())
            },
{
    lemma_pieces_trimmed(split_on(raw, ','));
}

proof fn lemma_pieces_trimmed(pieces: Seq<Seq<char>>)
    ensures
        forall|i: int|
            0 <= i < nonblank_trimmed(pieces).len() ==> {
                let t = #[trigger] nonblank_trimmed(pieces)[i];
                &&& t.len() > 0
                &&& !is_space(t[0])
                &&& !is_space(t.last())
            },
    decreases pieces.len(),
{
    if pieces.len() > 0 {
        lemma_pieces_trimmed(pieces.drop_last());
        let p = pieces.last();
        lemma_trim_start_edges(p);
        lemma_trim_end_edges(trim_start(p));
        let before = nonblank_trimmed(pieces.drop_last());
        if trim(p).len() > 0 {
            assert(nonblank_trimmed(pieces) == before.push(trim(p)));
            assert forall|i: int| 0 <= i < nonblank_trimmed(pieces).len() implies {
                let t = #[trigger] nonblank_trimmed(pieces)[i];
                &&& t.len() > 0
                &&& !is_space(t[0])
                &&& !is_space(t.last())
            } by {
                if i < before.len() {
                    assert(nonblank_trimmed(pieces)[i] == before[i]);
                } else {
                    assert(nonblank_trimmed(pieces)[i] == trim(p));
                }
            }
        }
    }
}

} // verus!
