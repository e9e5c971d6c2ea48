//! Sorting the per-team record lists by their stable identifier.
//!
//! Snapshots are handed to independent processes as text, and tests compare
//! that text byte for byte, so the order of each list must be a function of
//! the state alone: ascending id order.

use vstd::multiset::Multiset;
use vstd::prelude::*;

use crate::state::{
    agents_sorted, capture_points_sorted, flags_sorted, AgentState, CapturePointState, FlagState,
};
use crate::team::TeamId;

verus! {

/// Inserts `x` into the id-sorted `out`, keeping it sorted.
fn insert_agent_sorted(out: &mut Vec<AgentState>, x: AgentState)
    requires
        agents_sorted(old(out)@),
    ensures
        agents_sorted(final(out)@),
        final(out)@.to_multiset() == old(out)@.to_multiset().insert(x),
        final(out)@.len() == old(out)@.len() + 1,
{
    proof {
        broadcast use vstd::seq_lib::group_to_multiset_ensures;

    }
    let mut j: usize = 0;
    while j < out.len() && out[j].id <= x.id
        invariant
            0 <= j <= out@.len(),
            forall|i: int| 0 <= i < j ==> #[trigger] out@[i].id <= x.id,
        decreases out@.len() - j,
    {
        j += 1;
    }
    let ghost pre = out@;
    out.insert(j, x);
    proof {
        assert(out@.remove(j as int) =~= pre);
        assert(out@[j as int] == x);
        assert(out@.to_multiset().remove(x) =~= pre.to_multiset());
        assert(out@.to_multiset().count(x) > 0);
        assert(out@.to_multiset() =~= pre.to_multiset().insert(x));
    }
}

/// Returns the same agents reordered into ascending id order.
pub fn sort_agents_by_id(v: Vec<AgentState>) -> (r: Vec<AgentState>)
    ensures
        agents_sorted(r@),
        r@.to_multiset() == v@.to_multiset(),
        r@.len() == v@.len(),
{
    proof {
        broadcast use vstd::seq_lib::group_to_multiset_ensures;

    }
    let ghost orig = v@;
    let mut rest = v;
    let mut out: Vec<AgentState> = Vec::new();
    while rest.len() > 0
        invariant
            agents_sorted(out@),
            out@.to_multiset().add(rest@.to_multiset()) =~= orig.to_multiset(),
            out@.len() + rest@.len() == orig.len(),
        decreases rest@.len(),
    {
        let ghost pre = rest@;
        let x = rest.remove(0);
        proof {
            broadcast use vstd::seq_lib::group_to_multiset_ensures;

            assert(rest@.to_multiset() =~= pre.to_multiset().remove(x));
        }
        insert_agent_sorted(&mut out, x);
    }
    proof {
        assert(rest@.to_multiset() =~= Multiset::<AgentState>::empty());
        assert(out@.to_multiset() =~= orig.to_multiset());
    }
    out
}

/// Inserts `x` into the id-sorted `out`, keeping it sorted.
fn insert_flag_sorted(out: &mut Vec<FlagState>, x: FlagState)
    requires
        flags_sorted(old(out)@),
    ensures
        flags_sorted(final(out)@),
        final(out)@.to_multiset() == old(out)@.to_multiset().insert(x),
        final(out)@.len() == old(out)@.len() + 1,
{
    proof {
        broadcast use vstd::seq_lib::group_to_multiset_ensures;

    }
    let mut j: usize = 0;
    while j < out.len() && out[j].id <= x.id
        invariant
            0 <= j <= out@.len(),
            forall|i: int| 0 <= i < j ==> #[trigger] out@[i].id <= x.id,
        decreases out@.len() - j,
    {
        j += 1;
    }
    let ghost pre = out@;
    out.insert(j, x);
    proof {
        assert(out@.remove(j as int) =~= pre);
        assert(out@[j as int] == x);
        assert(out@.to_multiset().remove(x) =~= pre.to_multiset());
        assert(out@.to_multiset().count(x) > 0);
        assert(out@.to_multiset() =~= pre.to_multiset().insert(x));
    }
}

/// Returns the same flags reordered into ascending id order.
pub fn sort_flags_by_id(v: Vec<FlagState>) -> (r: Vec<FlagState>)
    ensures
        flags_sorted(r@),
        r@.to_multiset() == v@.to_multiset(),
        r@.len() == v@.len(),
{
    proof {
        broadcast use vstd::seq_lib::group_to_multiset_ensures;

    }
    let ghost orig = v@;
    let mut rest = v;
    let mut out: Vec<FlagState> = Vec::new();
    while rest.len() > 0
        invariant
            flags_sorted(out@),
            out@.to_multiset().add(rest@.to_multiset()) =~= orig.to_multiset(),
            out@.len() + rest@.len() == orig.len(),
        decreases rest@.len(),
    {
        let ghost pre = rest@;
        let x = rest.remove(0);
        proof {
            broadcast use vstd::seq_lib::group_to_multiset_ensures;

            assert(rest@.to_multiset() =~= pre.to_multiset().remove(x));
        }
        insert_flag_sorted(&mut out, x);
    }
    proof {
        assert(rest@.to_multiset() =~= Multiset::<FlagState>::empty());
        assert(out@.to_multiset() =~= orig.to_multiset());
    }
    out
}

/// Inserts `x` into the id-sorted `out`, keeping it sorted.
fn insert_capture_point_sorted(out: &mut Vec<CapturePointState>, x: CapturePointState)
    requires
        capture_points_sorted(old(out)@),
    ensures
        capture_points_sorted(final(out)@),
        final(out)@.to_multiset() == old(out)@.to_multiset().insert(x),
        final(out)@.len() == old(out)@.len() + 1,
{
    proof {
        broadcast use vstd::seq_lib::group_to_multiset_ensures;

    }
    let mut j: usize = 0;
    while j < out.len() && out[j].id <= x.id
        invariant
            0 <= j <= out@.len(),
            forall|i: int| 0 <= i < j ==> #[trigger] out@[i].id <= x.id,
        decreases out@.len() - j,
    {
        j += 1;
    }
    let ghost pre = out@;
    out.insert(j, x);
    proof {
        assert(out@.remove(j as int) =~= pre);
        assert(out@[j as int] == x);
        assert(out@.to_multiset().remove(x) =~= pre.to_multiset());
        assert(out@.to_multiset().count(x) > 0);
        assert(out@.to_multiset() =~= pre.to_multiset().insert(x));
    }
}

/// Returns the same capture points reordered into ascending id order.
pub fn sort_capture_points_by_id(v: Vec<CapturePointState>) -> (r: Vec<CapturePointState>)
    ensures
        capture_points_sorted(r@),
        r@.to_multiset() == v@.to_multiset(),
        r@.len() == v@.len(),
{
    proof {
        broadcast use vstd::seq_lib::group_to_multiset_ensures;

    }
    let ghost orig = v@;
    let mut rest = v;
    let mut out: Vec<CapturePointState> = Vec::new();
    while rest.len() > 0
        invariant
            capture_points_sorted(out@),
            out@.to_multiset().add(rest@.to_multiset()) =~= orig.to_multiset(),
            out@.len() + rest@.len() == orig.len(),
        decreases rest@.len(),
    {
        let ghost pre = rest@;
        let x = rest.remove(0);
        proof {
            broadcast use vstd::seq_lib::group_to_multiset_ensures;

            assert(rest@.to_multiset() =~= pre.to_multiset().remove(x));
        }
        insert_capture_point_sorted(&mut out, x);
    }
    proof {
        assert(rest@.to_multiset() =~= Multiset::<CapturePointState>::empty());
        assert(out@.to_multiset() =~= orig.to_multiset());
    }
    out
}

/// Splits a mixed list of agents into the red and the blue team, each in
/// ascending id order: the same records, regrouped and sorted.
pub fn collect_agent_states(all: Vec<AgentState>) -> (r: (Vec<AgentState>, Vec<AgentState>))
    ensures
        agents_sorted(r.0@),
        agents_sorted(r.1@),
        r.0@.to_multiset() == all@.filter(|a: AgentState| a.team == TeamId::Red).to_multiset(),
        r.1@.to_multiset() == all@.filter(|a: AgentState| a.team == TeamId::Blue).to_multiset(),
{
    let ghost orig = all@;
    let mut rest = all;
    let mut red: Vec<AgentState> = Vec::new();
    let mut blue: Vec<AgentState> = Vec::new();
    let ghost mut i: int = 0;
    proof {
        assert(orig.take(0) =~= Seq::<AgentState>::empty());
        reveal_with_fuel(Seq::filter, 1);
    }
    while rest.len() > 0
        invariant
            0 <= i <= orig.len(),
            rest@ == orig.skip(i),
            red@ == orig.take(i).filter(|a: AgentState| a.team == TeamId::Red),
            blue@ == orig.take(i).filter(|a: AgentState| a.team == TeamId::Blue),
        decreases rest@.len(),
    {
        let ghost pre = rest@;
        let x = rest.remove(0);
        proof {
            assert(pre[0] == orig[i]);
            assert(pre.remove(0) =~= orig.skip(i + 1));
            let t1 = orig.take(i + 1);
            assert(t1.drop_last() =~= orig.take(i));
            assert(t1.last() == orig[i]);
            reveal_with_fuel(Seq::filter, 2);
            assert(t1.filter(|a: AgentState| a.team == TeamId::Red) == if orig[i].team
                == TeamId::Red {
                orig.take(i).filter(|a: AgentState| a.team == TeamId::Red).push(orig[i])
            } else {
                orig.take(i).filter(|a: AgentState| a.team == TeamId::Red)
            });
            assert(t1.filter(|a: AgentState| a.team == TeamId::Blue) == if orig[i].team
                == TeamId::Blue {
                orig.take(i).filter(|a: AgentState| a.team == TeamId::Blue).push(orig[i])
            } else {
                orig.take(i).filter(|a: AgentState| a.team == TeamId::Blue)
            });
        }
        match x.team {
            TeamId::Red => red.push(x),
            TeamId::Blue => blue.push(x),
        }
        proof {
            i = i + 1;
        }
    }
    proof {
        assert(orig.take(orig.len() as int) =~= orig);
        assert(orig.skip(i).len() == 0);
    }
    let red_sorted = sort_agents_by_id(red);
    let blue_sorted = sort_agents_by_id(blue);
    (red_sorted, blue_sorted)
}

/// Splits a mixed list of flags into the red and the blue team's, each in
/// ascending id order.
pub fn collect_flag_states(all: Vec<FlagState>) -> (r: (Vec<FlagState>, Vec<FlagState>))
    ensures
        flags_sorted(r.0@),
        flags_sorted(r.1@),
        r.0@.to_multiset() == all@.filter(|f: FlagState| f.team == TeamId::Red).to_multiset(),
        r.1@.to_multiset() == all@.filter(|f: FlagState| f.team == TeamId::Blue).to_multiset(),
{
    let ghost orig = all@;
    let mut rest = all;
    let mut red: Vec<FlagState> = Vec::new();
    let mut blue: Vec<FlagState> = Vec::new();
    let ghost mut i: int = 0;
    proof {
        assert(orig.take(0) =~= Seq::<FlagState>::empty());
        reveal_with_fuel(Seq::filter, 1);
    }
    while rest.len() > 0
        invariant
            0 <= i <= orig.len(),
            rest@ == orig.skip(i),
            red@ == orig.take(i).filter(|f: FlagState| f.team == TeamId::Red),
            blue@ == orig.take(i).filter(|f: FlagState| f.team == TeamId::Blue),
        decreases rest@.len(),
    {
        let ghost pre = rest@;
        let x = rest.remove(0);
        proof {
            assert(pre[0] == orig[i]);
            assert(pre.remove(0) =~= orig.skip(i + 1));
            let t1 = orig.take(i + 1);
            assert(t1.drop_last() =~= orig.take(i));
            assert(t1.last() == orig[i]);
            reveal_with_fuel(Seq::filter, 2);
            assert(t1.filter(|f: FlagState| f.team == TeamId::Red) == if orig[i].team
                == TeamId::Red {
                orig.take(i).filter(|f: FlagState| f.team == TeamId::Red).push(orig[i])
            } else {
                orig.take(i).filter(|f: FlagState| f.team == TeamId::Red)
            });
            assert(t1.filter(|f: FlagState| f.team == TeamId::Blue) == if orig[i].team
                == TeamId::Blue {
                orig.take(i).filter(|f: FlagState| f.team == TeamId::Blue).push(orig[i])
            } else {
                orig.take(i).filter(|f: FlagState| f.team == TeamId::Blue)
            });
        }
        match x.team {
            TeamId::Red => red.push(x),
            TeamId::Blue => blue.push(x),
        }
        proof {
            i = i + 1;
        }
    }
    proof {
        assert(orig.take(orig.len() as int) =~= orig);
        assert(orig.skip(i).len() == 0);
    }
    (sort_flags_by_id(red), sort_flags_by_id(blue))
}

/// Splits a mixed list of capture points into the red and the blue
/// team's, each in ascending id order.
pub fn collect_capture_point_states(all: Vec<CapturePointState>) -> (r: (
    Vec<CapturePointState>,
    Vec<CapturePointState>,
))
    ensures
        capture_points_sorted(r.0@),
        capture_points_sorted(r.1@),
        r.0@.to_multiset() == all@.filter(
            |c: CapturePointState| c.team == TeamId::Red,
        ).to_multiset(),
        r.1@.to_multiset() == all@.filter(
            |c: CapturePointState| c.team == TeamId::Blue,
        ).to_multiset(),
{
    let ghost orig = all@;
    let mut rest = all;
    let mut red: Vec<CapturePointState> = Vec::new();
    let mut blue: Vec<CapturePointState> = Vec::new();
    let ghost mut i: int = 0;
    proof {
        assert(orig.take(0) =~= Seq::<CapturePointState>::empty());
        reveal_with_fuel(Seq::filter, 1);
    }
    while rest.len() > 0
        invariant
            0 <= i <= orig.len(),
            rest@ == orig.skip(i),
            red@ == orig.take(i).filter(|c: CapturePointState| c.team == TeamId::Red),
            blue@ == orig.take(i).filter(|c: CapturePointState| c.team == TeamId::Blue),
        decreases rest@.len(),
    {
        let ghost pre = rest@;
        let x = rest.remove(0);
        proof {
            assert(pre[0] == orig[i]);
            assert(pre.remove(0) =~= orig.skip(i + 1));
            let t1 = orig.take(i + 1);
            assert(t1.drop_last() =~= orig.take(i));
            assert(t1.last() == orig[i]);
            reveal_with_fuel(Seq::filter, 2);
            assert(t1.filter(|c: CapturePointState| c.team == TeamId::Red) == if orig[i].team
                == TeamId::Red {
                orig.take(i).filter(|c: CapturePointState| c.team == TeamId::Red).push(orig[i])
            } else {
                orig.take(i).filter(|c: CapturePointState| c.team == TeamId::Red)
            });
            assert(t1.filter(|c: CapturePointState| c.team == TeamId::Blue) == if orig[i].team
                == TeamId::Blue {
                orig.take(i).filter(|c: CapturePointState| c.team == TeamId::Blue).push(orig[i])
            } else {
                orig.take(i).filter(|c: CapturePointState| c.team == TeamId::Blue)
            });
        }
        match x.team {
            TeamId::Red => red.push(x),
            TeamId::Blue => blue.push(x),
        }
        proof {
            i = i + 1;
        }
    }
    proof {
        assert(orig.take(orig.len() as int) =~= orig);
        assert(orig.skip(i).len() == 0);
    }
    (sort_capture_points_by_id(red), sort_capture_points_by_id(blue))
}


} // verus!
