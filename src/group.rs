use vstd::prelude::*;
use crate::classify::{copy_value, values_view, LispVal, ValueView};

verus! {

/// The grouper's state after a prefix of the value sequence.
pub struct GroupState {
    /// An open marker has been seen and the call head may be captured.
    pub awaiting: bool,
    /// The captured call head.
    pub head: Option<ValueView>,
    /// Atoms collected since the last close marker.
    pub buffer: Seq<ValueView>,
    /// The flushed argument groups, in order.
    pub groups: Seq<Seq<ValueView>>,
}

/// The state before any value: no head, nothing collected.
pub open spec fn initial_state() -> GroupState {
    GroupState { awaiting: false, head: None, buffer: Seq::empty(), groups: Seq::empty() }
}

/// One transition of the grouper.
pub open spec fn group_step(st: GroupState, v: ValueView) -> GroupState {
    match v {
        ValueView::BeginExpr => GroupState { awaiting: true, ..st },
        ValueView::Atom(_) => {
            if st.awaiting && st.head is None {
                GroupState { awaiting: false, head: Some(v), ..st }
            } else {
                GroupState { buffer: st.buffer.push(v), ..st }
            }
        },
        ValueView::EndExpr => GroupState {
            buffer: Seq::empty(),
            groups: st.groups.push(st.buffer),
            ..st
        },
        _ => st,
    }
}

/// The grouper's state after consuming `vs` from the initial state.
pub open spec fn group_fold(vs: Seq<ValueView>) -> GroupState
    decreases vs.len(),
{
    if vs.len() == 0 {
        initial_state()
    } else {
        group_step(group_fold(vs.drop_last()), vs.last())
    }
}

/// The model of a captured call head.
pub open spec fn head_view(h: Option<LispVal>) -> Option<ValueView> {
    match h {
        Some(v) => Some(v@),
        None => None,
    }
}

/// The models of a sequence of argument groups.
pub open spec fn groups_view(gs: Seq<Vec<LispVal>>) -> Seq<Seq<ValueView>> {
    gs.map_values(|g: Vec<LispVal>| values_view(g@))
}

/// Builds the call head and the argument groups in one forward pass.
/// The head is the first atom that follows an open marker; every later atom
/// joins the current group, which a close marker flushes. Atoms after the
/// last close marker are dropped.
pub fn generate_stacks(values: Vec<LispVal>) -> (r: (Option<LispVal>, Vec<Vec<LispVal>>))
    ensures
        head_view(r.0) == group_fold(values_view(values@)).head,
        groups_view(r.1@) == group_fold(values_view(values@)).groups,
{
    let mut capture_func = false;
    let mut call: Option<LispVal> = None;
    let mut args: Vec<Vec<LispVal>> = Vec::new();
    let mut tmp: Vec<LispVal> = Vec::new();
    let mut i: usize = 0;
    proof {
        assert(values_view(values@.take(0)) =~= Seq::<ValueView>::empty());
        assert(values_view(tmp@) =~= Seq::<ValueView>::empty());
        assert(groups_view(args@) =~= Seq::<Seq<ValueView>>::empty());
    }
    while i < values.len()
        invariant
            i <= values@.len(),
            group_fold(values_view(values@.take(i as int))) == (GroupState {
                awaiting: capture_func,
                head: head_view(call),
                buffer: values_view(tmp@),
                groups: groups_view(args@),
            }),
        decreases values@.len() - i,
    {
        let v = copy_value(&values[i]);
        let ghost vv = v@;
        let ghost prev = group_fold(values_view(values@.take(i as int)));
        proof {
            assert(values_view(values@.take(i + 1)).drop_last() =~= values_view(
                values@.take(i as int),
            ));
            assert(values_view(values@.take(i + 1)).last() == vv);
        }
        match v {
            LispVal::BeginExpr => {
                capture_func = true;
            },
            LispVal::Atom(a) => {
                if capture_func && call.is_none() {
                    call = Some(LispVal::Atom(a));
                    capture_func = false;
                } else {
                    tmp.push(LispVal::Atom(a));
                    proof {
                        assert(values_view(tmp@) =~= prev.buffer.push(vv));
                    }
                }
            },
            LispVal::EndExpr => {
                let group = tmp;
                tmp = Vec::new();
                let ghost gv = values_view(group@);
                args.push(group);
                proof {
                    assert(values_view(tmp@) =~= Seq::<ValueView>::empty());
                    assert(groups_view(args@) =~= prev.groups.push(gv));
                }
            },
            _ => {},
        }
        i = i + 1;
    }
    assert(values@.take(values@.len() as int) =~= values@);
    (call, args)
}

} // verus!
