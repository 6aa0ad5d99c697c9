//! Whom to terminate on quit.
//!
//! In `docker compose logs -f | logtui` the producer keeps running after the
//! viewer has quit until its next write hits the broken pipe (which may be
//! never for a quiet stream), and the shell waits for it, so the prompt does
//! not come back. So the viewer terminates its pipeline siblings when it quits.

use std::collections::HashMap;
use vstd::prelude::*;
use vstd::std_specs::hash::*;

verus! {

/// Whether to signal the own process group (Unix). An interactive shell puts
/// the whole pipeline into one process group of its own, so that signalling
/// the group reaches exactly the siblings. A group that is shared with the
/// parent (no job control, e.g. inside a plain script) is left alone rather
/// than killing the script.
pub fn may_signal_group(own_group: i32, parent_group: i32) -> (yes: bool)
    ensures
        yes == (own_group != parent_group),
{
    own_group != parent_group
}

/// What to do with a list of console processes (Windows), of which the console
/// says that there are `reported` and for which `room` was provided.
#[derive(Debug, Clone, Copy, PartialEq, Eq, Structural)]
pub enum ConsoleList {
    /// The list is complete.
    Complete,
    /// The list did not fit; ask again with room for as many as reported.
    TooShort,
    /// There is no list.
    Failed,
}

/// A list with room for all is complete, unless nothing was reported.
pub fn console_list(reported: usize, room: usize) -> (list: ConsoleList)
    ensures
        list == (if reported == 0 {
            ConsoleList::Failed
        } else if reported <= room {
            ConsoleList::Complete
        } else {
            ConsoleList::TooShort
        }),
{
    if reported == 0 {
        ConsoleList::Failed
    } else if reported <= room {
        ConsoleList::Complete
    } else {
        ConsoleList::TooShort
    }
}

/// Whether a process is a sibling of `me`: another child of the same parent,
/// and not that parent itself.
pub open spec fn is_sibling(parent_of: Map<u32, u32>, me: u32, pid: u32) -> bool {
    &&& pid != me
    &&& pid != parent_of[me]
    &&& parent_of.contains_key(pid)
    &&& parent_of[pid] == parent_of[me]
}

/// The processes to terminate: those of the console that were spawned by the
/// parent of `me`, in their order; none where that parent is not known.
pub open spec fn siblings(pids: Seq<u32>, parent_of: Map<u32, u32>, me: u32) -> Seq<u32> {
    if parent_of.contains_key(me) {
        pids.filter(|pid: u32| is_sibling(parent_of, me, pid))
    } else {
        Seq::empty()
    }
}

/// The pipeline siblings of `me` (Windows, which has no pipeline process
/// groups): attached to the same console and spawned by the same parent (the
/// shell). That matches `producer | logtui` under the usual shells, and leaves
/// out the shell itself and unrelated console processes.
pub fn pipeline_siblings(pids: &Vec<u32>, parent_of: &HashMap<u32, u32>, me: u32) -> (found: Vec<
    u32,
>)
    ensures
        found@ == siblings(pids@, parent_of@, me),
{
    broadcast use group_hash_axioms;

    let mut found: Vec<u32> = Vec::new();
    let shell: u32 = match parent_of.get(&me) {
        Some(shell) => *shell,
        None => {
            return found;
        },
    };
    let ghost wanted = |pid: u32| is_sibling(parent_of@, me, pid);
    let mut i: usize = 0;
    while i < pids.len()
        invariant
            i <= pids@.len(),
            parent_of@.contains_key(me),
            parent_of@[me] == shell,
            wanted == (|pid: u32| is_sibling(parent_of@, me, pid)),
            found@ == pids@.take(i as int).filter(wanted),
        decreases pids@.len() - i,
    {
        broadcast use group_hash_axioms;

        let pid: u32 = pids[i];
        let same_parent = match parent_of.get(&pid) {
            Some(parent) => *parent == shell,
            None => false,
        };
        let hit = pid != me && pid != shell && same_parent;
        proof {
            reveal(Seq::filter);
            assert(pids@.take(i + 1).drop_last() =~= pids@.take(i as int));
            assert(hit == wanted(pid));
        }
        if hit {
            found.push(pid);
        }
        i += 1;
    }
    assert(pids@.take(i as int) =~= pids@);
    found
}

/// Neither the viewer itself nor the shell that started it is ever terminated,
/// and everything on the console that this shell started is.
pub proof fn law_only_siblings_are_terminated(
    pids: Seq<u32>,
    parent_of: Map<u32, u32>,
    me: u32,
    pid: u32,
)
    ensures
        siblings(pids, parent_of, me).contains(pid) <==> {
            &&& pids.contains(pid)
            &&& parent_of.contains_key(me)
            &&& parent_of.contains_key(pid)
            &&& parent_of[pid] == parent_of[me]
            &&& pid != me
            &&& pid != parent_of[me]
        },
        !siblings(pids, parent_of, me).contains(me),
        !siblings(pids, parent_of, me).contains(parent_of[me]),
{
    let wanted = |pid: u32| is_sibling(parent_of, me, pid);
    let found = pids.filter(wanted);
    if parent_of.contains_key(me) {
        assert forall|p: u32| #[trigger] found.contains(p) implies pids.contains(p)
            && is_sibling(parent_of, me, p) by {
            pids.lemma_filter_contains_rev(wanted, p);
            let k = choose|k: int| 0 <= k < found.len() && found[k] == p;
            pids.lemma_filter_pred(wanted, k);
        }
        if pids.contains(pid) && is_sibling(parent_of, me, pid) {
            let k = choose|k: int| 0 <= k < pids.len() && pids[k] == pid;
            pids.lemma_filter_contains(wanted, k);
        }
    }
}

/// Each process is judged by itself: the siblings in two lists together are
/// those in the one and then those in the other.
pub proof fn law_siblings_are_judged_one_by_one(
    pids: Seq<u32>,
    more: Seq<u32>,
    parent_of: Map<u32, u32>,
    me: u32,
)
    ensures
        siblings(pids + more, parent_of, me) == siblings(pids, parent_of, me) + siblings(
            more,
            parent_of,
            me,
        ),
{
    let wanted = |pid: u32| is_sibling(parent_of, me, pid);
    if parent_of.contains_key(me) {
        Seq::filter_distributes_over_add(pids, more, wanted);
    } else {
        assert(Seq::<u32>::empty() + Seq::<u32>::empty() =~= Seq::<u32>::empty());
    }
}

} // verus!
