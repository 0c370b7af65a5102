//! The device-specialization pass.  Three phases, in mandatory order:
//! host-to-device copies at the Function frontier, device-to-host copies
//! at the retrieval frontier, then substitution of every host primitive
//! by its CUDA counterpart.  Node identities, edges and views of existing
//! nodes are preserved throughout.

use vstd::prelude::*;
use crate::graph::{node_abs, EdgeData, Graph, NodeAbs, NodeData};
use crate::ops::{
    is_copy, is_copy_from, is_copy_to, is_cuda_compute, is_function, is_host_compute,
    is_substituted, spec_subst, subst_op, Op,
};
use crate::shape::TensorView;

verus! {

/// Every node is a Function input or a host compute primitive: the graphs
/// the pass is meant for.
pub open spec fn host_only(nodes: Map<usize, NodeAbs>) -> bool {
    forall|n: usize|
        #[trigger] nodes.dom().contains(n) ==> is_function(nodes[n].op) || is_host_compute(
            nodes[n].op,
        )
}

/// A Function node still needs a host-to-device copy: it has no consumer
/// at all yet, or some consumer that is not already a copy node.
pub open spec fn needs_copy(g: Graph, f: usize) -> bool {
    ||| forall|e: usize| #[trigger] g.edges().dom().contains(e) ==> g.edges()[e].src != f
    ||| exists|e: usize|
        #[trigger] g.edges().dom().contains(e) && g.edges()[e].src == f && !is_copy_to(
            g.nodes()[g.edges()[e].dst].op,
        )
}

/// The pass has already run: every Function frontier routes through a
/// copy, every retrieved node is a Function or a device-to-host copy, and
/// no substitutable host primitive is left.
pub open spec fn optimized_form(g: Graph) -> bool {
    &&& forall|f: usize|
        #[trigger] g.nodes().dom().contains(f) && is_function(g.nodes()[f].op) ==> !needs_copy(g, f)
    &&& forall|n: usize|
        #[trigger] g.retrieve().contains(n) ==> is_function(g.nodes()[n].op) || is_copy_from(
            g.nodes()[n].op,
        )
    &&& forall|n: usize|
        #[trigger] g.nodes().dom().contains(n) ==> !is_host_compute(g.nodes()[n].op)
}

/// Substitute every host primitive's operator slot in place; node
/// identity, views and edges are untouched.
fn phase_c(g: &mut Graph)
    requires
        old(g).wf(),
    ensures
        final(g).wf(),
        final(g).nodes().dom() == old(g).nodes().dom(),
        forall|n: usize|
            #[trigger] old(g).nodes().dom().contains(n) ==> {
                let post = final(g).nodes()[n];
                let pre = old(g).nodes()[n];
                post.op == spec_subst(pre.op) && post.tensor_id == pre.tensor_id && post.dims
                    == pre.dims && post.fake == pre.fake
            },
        final(g).edges() == old(g).edges(),
        final(g).retrieve() == old(g).retrieve(),
        final(g).nodelete() == old(g).nodelete(),
        final(g).remap() == old(g).remap(),
        (forall|n: usize|
            #[trigger] old(g).nodes().dom().contains(n) ==> !is_host_compute(old(g).nodes()[n].op))
            ==> final(g).nodes() == old(g).nodes(),
{
    let ids = g.node_ids();
    let n = ids.len();
    let mut k: usize = 0;
    while k < n
        invariant
            k <= n,
            n == ids@.len(),
            g.wf(),
            g.nodes().dom() == old(g).nodes().dom(),
            forall|i: int| 0 <= i < n as int ==> old(g).nodes().dom().contains(#[trigger] ids@[i]),
            forall|i: int, j: int| 0 <= i < j < n as int ==> ids@[i] != ids@[j],
            forall|id: usize| #[trigger] old(g).nodes().dom().contains(id) ==> ids@.contains(id),
            forall|i: int|
                0 <= i < k as int ==> g.nodes()[#[trigger] ids@[i]].op == spec_subst(
                    old(g).nodes()[ids@[i]].op,
                ),
            forall|n2: usize|
                #[trigger] old(g).nodes().dom().contains(n2) ==> g.nodes()[n2].tensor_id == old(
                    g,
                ).nodes()[n2].tensor_id && g.nodes()[n2].dims == old(g).nodes()[n2].dims
                    && g.nodes()[n2].fake == old(g).nodes()[n2].fake && (g.nodes()[n2].op == old(
                    g,
                ).nodes()[n2].op || g.nodes()[n2].op == spec_subst(old(g).nodes()[n2].op)),
            forall|n2: usize|
                #[trigger] old(g).nodes().dom().contains(n2) && !ids@.take(k as int).contains(n2)
                    ==> g.nodes()[n2].op == old(g).nodes()[n2].op,
            g.edges() == old(g).edges(),
            g.retrieve() == old(g).retrieve(),
            g.nodelete() == old(g).nodelete(),
            g.remap() == old(g).remap(),
            (forall|n2: usize|
                #[trigger] old(g).nodes().dom().contains(n2) ==> !is_host_compute(
                    old(g).nodes()[n2].op,
                )) ==> g.nodes() == old(g).nodes(),
        decreases n - k,
    {
        let id = ids[k];
        let op = match g.node_op(id) {
            Some(op) => op,
            None => {
                proof {
                    assert(false);
                }
                Op::Function
            },
        };
        let ghost pre = *g;
        if is_substituted(op) {
            let new_op = subst_op(op);
            let _ok = g.set_node_op(id, new_op);
            proof {
                assert(g.nodes().dom() =~= pre.nodes().dom());
            }
        }
        proof {
            assert(ids@.take(k as int + 1)[k as int] == ids@[k as int]);
            assert(ids@.take(k as int + 1).contains(ids@[k as int]));
            assert forall|n2: usize|
                #[trigger] old(g).nodes().dom().contains(n2) && !ids@.take(k as int + 1).contains(
                    n2,
                ) implies g.nodes()[n2].op == old(g).nodes()[n2].op by {
                assert(!ids@.take(k as int).contains(n2)) by {
                    if ids@.take(k as int).contains(n2) {
                        let i = choose|i: int|
                            0 <= i < k as int && ids@.take(k as int)[i] == n2;
                        assert(ids@.take(k as int + 1)[i] == n2);
                    }
                }
                assert(pre.nodes()[n2].op == old(g).nodes()[n2].op);
                assert(n2 != ids@[k as int]);
            }
            assert forall|i: int|
                0 <= i < k as int + 1 implies g.nodes()[#[trigger] ids@[i]].op == spec_subst(
                old(g).nodes()[ids@[i]].op,
            ) by {
                if i < k as int {
                    assert(pre.nodes()[ids@[i]].op == spec_subst(old(g).nodes()[ids@[i]].op));
                    assert(ids@[i] != ids@[k as int]);
                } else {
                    assert(!ids@.take(k as int).contains(ids@[k as int])) by {
                        if ids@.take(k as int).contains(ids@[k as int]) {
                            let i2 = choose|i2: int|
                                0 <= i2 < k as int && ids@.take(k as int)[i2] == ids@[k as int];
                        }
                    }
                }
            }
        }
        k += 1;
    }
    proof {
        assert forall|n2: usize| #[trigger] old(g).nodes().dom().contains(n2) implies g.nodes()[n2].op
            == spec_subst(old(g).nodes()[n2].op) by {
            let i = choose|i: int| 0 <= i < ids@.len() && ids@[i] == n2;
        }
        if forall|n2: usize|
            #[trigger] old(g).nodes().dom().contains(n2) ==> !is_host_compute(
                old(g).nodes()[n2].op,
            ) {
            assert(g.nodes() == old(g).nodes());
        }
    }
}

/// The outcome of Phase B for one retrieved node `n`: a fresh
/// device-to-host copy `d` hangs off `n`, carries `n`'s view, and has
/// taken over `n`'s place in the retrieval set and the remap table.
#[verifier::opaque]
pub open spec fn phase_b_moved(g0: Graph, g: Graph, n: usize, d: usize) -> bool {
    &&& !g0.nodes().dom().contains(d)
    &&& g.nodes().dom().contains(d)
    &&& is_copy_from(g.nodes()[d].op)
    &&& g.nodes()[d].tensor_id == g0.nodes()[n].tensor_id
    &&& g.nodes()[d].dims == g0.nodes()[n].dims
    &&& g.nodes()[d].fake == g0.nodes()[n].fake
    &&& exists|e: usize|
        #[trigger] g.edges().dom().contains(e) && g.edges()[e] == (EdgeData {
            src: n,
            dst: d,
            weight: 0,
        })
    &&& forall|e: usize|
        #[trigger] g.edges().dom().contains(e) && g.edges()[e].dst == d ==> g.edges()[e]
            == (EdgeData { src: n, dst: d, weight: 0 })
    &&& g.retrieve().contains(d)
    &&& !g.retrieve().contains(n)
    &&& g.remap().dom().contains(n) && g.remap()[n] == d
    &&& g0.nodelete().contains(n) ==> g.nodelete().contains(d) && !g.nodelete().contains(n)
    &&& !g0.nodelete().contains(n) ==> !g.nodelete().contains(d)
}

/// Insert device-to-host copies at the retrieval frontier: every
/// retrieved node that is neither a Function nor already such a copy
/// gets one, and external references move to it.
fn phase_b(g: &mut Graph)
    requires
        old(g).wf(),
    ensures
        final(g).wf(),
        forall|n: usize|
            #[trigger] old(g).nodes().dom().contains(n) ==> final(g).nodes().dom().contains(n)
                && final(g).nodes()[n] == old(g).nodes()[n],
        forall|n: usize|
            #[trigger] final(g).nodes().dom().contains(n) && !old(g).nodes().dom().contains(n)
                ==> is_copy_from(final(g).nodes()[n].op) && (exists|m: usize|
                phase_b_moved(*old(g), *final(g), m, n)),
        forall|e: usize|
            #[trigger] old(g).edges().dom().contains(e) ==> final(g).edges().dom().contains(e)
                && final(g).edges()[e] == old(g).edges()[e],
        forall|e: usize|
            #[trigger] final(g).edges().dom().contains(e) && !old(g).edges().dom().contains(e)
                ==> {
                let d = final(g).edges()[e];
                &&& d.weight == 0
                &&& old(g).nodes().dom().contains(d.src)
                &&& !is_function(old(g).nodes()[d.src].op)
                &&& !old(g).nodes().dom().contains(d.dst)
                &&& is_copy_from(final(g).nodes()[d.dst].op)
                &&& old(g).retrieve().contains(d.src)
                &&& final(g).retrieve().contains(d.dst)
            },
        forall|n: usize|
            #[trigger] final(g).retrieve().contains(n) ==> (old(g).retrieve().contains(n) && (
            is_function(old(g).nodes()[n].op) || is_copy_from(old(g).nodes()[n].op))) || (!old(
                g,
            ).nodes().dom().contains(n) && (exists|m: usize|
                phase_b_moved(*old(g), *final(g), m, n))),
        forall|m: usize|
            #[trigger] old(g).remap().dom().contains(m) ==> final(g).remap().dom().contains(m),
        forall|m: usize|
            #[trigger] final(g).remap().dom().contains(m) && !old(g).remap().dom().contains(m)
                ==> old(g).retrieve().contains(m) && !is_function(old(g).nodes()[m].op)
                && !is_copy_from(old(g).nodes()[m].op),
        forall|m: usize|
            #[trigger] final(g).nodelete().contains(m) ==> old(g).nodelete().contains(m) || !old(
                g,
            ).nodes().dom().contains(m),
        forall|m: usize|
            #[trigger] old(g).nodelete().contains(m) && !(old(g).retrieve().contains(m)
                && !is_function(old(g).nodes()[m].op) && !is_copy_from(old(g).nodes()[m].op))
                ==> final(g).nodelete().contains(m),
        forall|n: usize|
            #[trigger] old(g).retrieve().contains(n) && (is_function(old(g).nodes()[n].op)
                || is_copy_from(old(g).nodes()[n].op)) ==> final(g).retrieve().contains(n),
        forall|n: usize|
            #[trigger] old(g).retrieve().contains(n) && !is_function(old(g).nodes()[n].op)
                && !is_copy_from(old(g).nodes()[n].op) ==> exists|d: usize|
                phase_b_moved(*old(g), *final(g), n, d),
        (forall|n: usize|
            #[trigger] old(g).retrieve().contains(n) ==> is_function(old(g).nodes()[n].op)
                || is_copy_from(old(g).nodes()[n].op)) ==> final(g).nodes() == old(g).nodes()
            && final(g).edges() == old(g).edges() && final(g).retrieve() == old(g).retrieve()
            && final(g).nodelete() == old(g).nodelete() && final(g).remap() == old(g).remap(),
{
    let rets = g.retrieve_ids();
    let n_rets = rets.len();
    let mut k: usize = 0;
    while k < n_rets
        invariant
            k <= n_rets,
            n_rets == rets@.len(),
            g.wf(),
            old(g).wf(),
            forall|i: int, j: int| 0 <= i < j < n_rets as int ==> rets@[i] != rets@[j],
            forall|i: int|
                0 <= i < n_rets as int ==> old(g).retrieve().contains(#[trigger] rets@[i]),
            forall|id: usize| #[trigger] old(g).retrieve().contains(id) ==> rets@.contains(id),
            forall|i: int| k as int <= i < n_rets as int ==> g.retrieve().contains(#[trigger] rets@[i]),
            forall|i: int|
                k as int <= i < n_rets as int ==> g.nodelete().contains(#[trigger] rets@[i])
                    == old(g).nodelete().contains(rets@[i]),
            forall|n: usize|
                #[trigger] old(g).nodes().dom().contains(n) ==> g.nodes().dom().contains(n)
                    && g.nodes()[n] == old(g).nodes()[n],
            forall|n: usize|
                #[trigger] g.nodes().dom().contains(n) && !old(g).nodes().dom().contains(n)
                    ==> is_copy_from(g.nodes()[n].op) && (exists|m: usize|
                    phase_b_moved(*old(g), *g, m, n)),
            forall|e: usize|
                #[trigger] old(g).edges().dom().contains(e) ==> g.edges().dom().contains(e)
                    && g.edges()[e] == old(g).edges()[e],
            forall|e: usize|
                #[trigger] g.edges().dom().contains(e) && !old(g).edges().dom().contains(e) ==> {
                    let d = g.edges()[e];
                    &&& d.weight == 0
                    &&& old(g).nodes().dom().contains(d.src)
                    &&& !is_function(old(g).nodes()[d.src].op)
                    &&& !old(g).nodes().dom().contains(d.dst)
                    &&& is_copy_from(g.nodes()[d.dst].op)
                    &&& old(g).retrieve().contains(d.src)
                    &&& g.retrieve().contains(d.dst)
                },
            forall|n: usize|
                #[trigger] g.retrieve().contains(n) ==> (old(g).retrieve().contains(n) && (
                is_function(old(g).nodes()[n].op) || is_copy_from(old(g).nodes()[n].op))) || (
                old(g).retrieve().contains(n) && exists|i: int|
                    k as int <= i < n_rets as int && rets@[i] == n) || (!old(
                    g,
                ).nodes().dom().contains(n) && (exists|m: usize| phase_b_moved(*old(g), *g, m, n))),
            forall|m: usize|
                #[trigger] old(g).remap().dom().contains(m) ==> g.remap().dom().contains(m),
            forall|m: usize|
                #[trigger] g.remap().dom().contains(m) && !old(g).remap().dom().contains(m)
                    ==> old(g).retrieve().contains(m) && !is_function(old(g).nodes()[m].op)
                    && !is_copy_from(old(g).nodes()[m].op),
            forall|m: usize|
                #[trigger] g.nodelete().contains(m) ==> old(g).nodelete().contains(m) || !old(
                    g,
                ).nodes().dom().contains(m),
            forall|m: usize|
                #[trigger] old(g).nodelete().contains(m) && !(old(g).retrieve().contains(m)
                    && !is_function(old(g).nodes()[m].op) && !is_copy_from(old(g).nodes()[m].op))
                    ==> g.nodelete().contains(m),
            forall|n: usize|
                #[trigger] old(g).retrieve().contains(n) && (is_function(old(g).nodes()[n].op)
                    || is_copy_from(old(g).nodes()[n].op)) ==> g.retrieve().contains(n),
            forall|i: int|
                0 <= i < k as int && !is_function(old(g).nodes()[#[trigger] rets@[i]].op)
                    && !is_copy_from(old(g).nodes()[rets@[i]].op) ==> exists|d: usize|
                    phase_b_moved(*old(g), *g, rets@[i], d),
            (forall|n: usize|
                #[trigger] old(g).retrieve().contains(n) ==> is_function(old(g).nodes()[n].op)
                    || is_copy_from(old(g).nodes()[n].op)) ==> g.nodes() == old(g).nodes()
                && g.edges() == old(g).edges() && g.retrieve() == old(g).retrieve()
                && g.nodelete() == old(g).nodelete() && g.remap() == old(g).remap(),
        decreases n_rets - k,
    {
        let n_id = rets[k];
        let ghost pre = *g;
        let op = match g.node_op(n_id) {
            Some(op) => op,
            None => {
                proof {
                    assert(old(g).retrieve().contains(n_id));
                    assert(old(g).nodes().dom().contains(n_id));
                    assert(false);
                }
                Op::Function
            },
        };
        let skip = match op {
            Op::Function => true,
            Op::CudaCopyFromDevice => true,
            _ => false,
        };
        if !skip {
            proof {
                assert(old(g).nodes().dom().contains(n_id));
                assert(op == old(g).nodes()[n_id].op);
            }
            let view = match g.node_view(n_id) {
                Some(v) => v,
                None => {
                    proof {
                        assert(false);
                    }
                    TensorView { tensor_id: 0, shape: crate::shape::ShapeTracker { dims: Vec::new(), fake: Vec::new() } }
                },
            };
            let r = g.add_op(Op::CudaCopyFromDevice, view, n_id);
            let d = r.0;
            let ghost mid = *g;
            g.move_references(n_id, d);
            proof {
                reveal(phase_b_moved);
                assert(!pre.nodelete().contains(d)) by {
                    assert(pre.wf());
                }
                assert(phase_b_moved(*old(g), *g, n_id, d)) by {
                    assert(mid.edges()[r.1] == (EdgeData { src: n_id, dst: d, weight: 0 }));
                    assert(g.edges() == mid.edges());
                    assert(g.edges().dom().contains(r.1));
                    assert(g.retrieve().contains(d) && !g.retrieve().contains(n_id)) by {
                        assert(mid.retrieve() == pre.retrieve());
                        assert(pre.retrieve().contains(rets@[k as int]));
                        assert(mid.retrieve().contains(n_id));
                    }
                    assert forall|e: usize|
                        #[trigger] g.edges().dom().contains(e) && g.edges()[e].dst == d implies g.edges()[e]
                        == (EdgeData { src: n_id, dst: d, weight: 0 }) by {
                        if e != r.1 {
                            assert(pre.edges().dom().contains(e));
                            assert(pre.nodes().dom().contains(pre.edges()[e].dst));
                            assert(false);
                        }
                    }
                    assert(pre.nodelete().contains(n_id) == old(g).nodelete().contains(n_id));
                    assert(mid.nodelete() == pre.nodelete());
                    assert(d != n_id);
                }
                assert forall|m: usize, dd: usize|
                    phase_b_moved(*old(g), pre, m, dd) && m != n_id implies #[trigger] phase_b_moved(
                    *old(g),
                    *g,
                    m,
                    dd,
                ) by {
                    assert(pre.nodes().dom().contains(dd));
                    assert(d != dd);
                    assert(old(g).nodes().dom().contains(n_id));
                    assert(n_id != dd);
                    let e = choose|e: usize|
                        #[trigger] pre.edges().dom().contains(e) && pre.edges()[e] == (EdgeData {
                            src: m,
                            dst: dd,
                            weight: 0,
                        });
                    assert(g.edges().dom().contains(e) && g.edges()[e] == pre.edges()[e]);
                    assert forall|e2: usize|
                        #[trigger] g.edges().dom().contains(e2) && g.edges()[e2].dst == dd implies g.edges()[e2]
                        == (EdgeData { src: m, dst: dd, weight: 0 }) by {
                        if e2 == r.1 {
                            assert(false);
                        } else {
                            assert(pre.edges().dom().contains(e2));
                        }
                    }
                }
                assert forall|i: int|
                    0 <= i < k as int + 1 && !is_function(old(g).nodes()[#[trigger] rets@[i]].op)
                        && !is_copy_from(old(g).nodes()[rets@[i]].op) implies exists|dd: usize|
                    phase_b_moved(*old(g), *g, rets@[i], dd) by {
                    if i < k as int {
                        let dd = choose|dd: usize| phase_b_moved(*old(g), pre, rets@[i], dd);
                        assert(rets@[i] != n_id);
                        assert(phase_b_moved(*old(g), *g, rets@[i], dd));
                    } else {
                        assert(phase_b_moved(*old(g), *g, rets@[i], d));
                    }
                }
                assert forall|n2: usize|
                    #[trigger] g.nodes().dom().contains(n2) && !old(g).nodes().dom().contains(n2)
                        implies is_copy_from(g.nodes()[n2].op) && (exists|m: usize|
                    phase_b_moved(*old(g), *g, m, n2)) by {
                    if n2 == d {
                        assert(phase_b_moved(*old(g), *g, n_id, d));
                    } else {
                        assert(pre.nodes().dom().contains(n2));
                        let m = choose|m: usize| phase_b_moved(*old(g), pre, m, n2);
                        assert(m != n_id) by {
                            if m == n_id {
                                assert(!pre.retrieve().contains(n_id));
                                assert(pre.retrieve().contains(rets@[k as int]));
                            }
                        }
                        assert(phase_b_moved(*old(g), *g, m, n2));
                    }
                }
                assert forall|n2: usize| #[trigger] g.retrieve().contains(n2) implies (old(
                    g,
                ).retrieve().contains(n2) && (is_function(old(g).nodes()[n2].op) || is_copy_from(
                    old(g).nodes()[n2].op,
                ))) || (old(g).retrieve().contains(n2) && exists|i: int|
                    k as int + 1 <= i < n_rets as int && rets@[i] == n2) || (!old(
                    g,
                ).nodes().dom().contains(n2) && (exists|m: usize|
                    phase_b_moved(*old(g), *g, m, n2))) by {
                    if n2 == d {
                        assert(phase_b_moved(*old(g), *g, n_id, d));
                        assert(!old(g).nodes().dom().contains(d));
                    } else if pre.retrieve().contains(n2) {
                        if old(g).retrieve().contains(n2) && (exists|i: int|
                            k as int <= i < n_rets as int && rets@[i] == n2) && !(is_function(
                            old(g).nodes()[n2].op,
                        ) || is_copy_from(old(g).nodes()[n2].op)) {
                            let i = choose|i: int|
                                k as int <= i < n_rets as int && rets@[i] == n2;
                            assert(n2 != n_id ==> rets@[i] != rets@[k as int]);
                            if i == k as int {
                                assert(n2 == n_id);
                                assert(!g.retrieve().contains(n_id)) by {
                                    assert(phase_b_moved(*old(g), *g, n_id, d));
                                }
                                assert(false);
                            }
                        } else if !old(g).retrieve().contains(n2) {
                            let m = choose|m: usize| phase_b_moved(*old(g), pre, m, n2);
                            assert(m != n_id) by {
                                if m == n_id {
                                    assert(!pre.retrieve().contains(n_id));
                                    assert(pre.retrieve().contains(rets@[k as int]));
                                }
                            }
                            assert(phase_b_moved(*old(g), *g, m, n2));
                        }
                    } else {
                        assert(false);
                    }
                }
            }
        } else {
            proof {
                reveal(phase_b_moved);
                assert forall|i: int|
                    0 <= i < k as int + 1 && !is_function(old(g).nodes()[#[trigger] rets@[i]].op)
                        && !is_copy_from(old(g).nodes()[rets@[i]].op) implies exists|dd: usize|
                    phase_b_moved(*old(g), *g, rets@[i], dd) by {
                    if i < k as int {
                    } else {
                        assert(rets@[i] == n_id);
                        assert(op == old(g).nodes()[n_id].op);
                        assert(false);
                    }
                }
            }
        }
        k += 1;
    }
    proof {
        reveal(phase_b_moved);
        assert forall|n: usize|
            #[trigger] old(g).retrieve().contains(n) && !is_function(old(g).nodes()[n].op)
                && !is_copy_from(old(g).nodes()[n].op) implies exists|d: usize|
            phase_b_moved(*old(g), *g, n, d) by {
            let i = choose|i: int| 0 <= i < rets@.len() && rets@[i] == n;
        }
        assert forall|n: usize| #[trigger] g.retrieve().contains(n) implies (old(
            g,
        ).retrieve().contains(n) && (is_function(old(g).nodes()[n].op) || is_copy_from(
            old(g).nodes()[n].op,
        ))) || (!old(g).nodes().dom().contains(n) && is_copy_from(g.nodes()[n].op)) by {}
    }
}

/// The outcome of Phase A for one Function node `f`: a fresh
/// host-to-device copy `c` carries `f`'s view; `f`'s single outgoing edge
/// `en` reaches `c`; and each former consumer edge of `f` reappears with
/// `c` as its source, weight preserved.
pub open spec fn copied_function_via(g0: Graph, g: Graph, f: usize, c: usize, en: usize) -> bool {
    &&& !g0.nodes().dom().contains(c)
    &&& g.nodes().dom().contains(c)
    &&& is_copy_to(g.nodes()[c].op)
    &&& g.nodes()[c].tensor_id == g0.nodes()[f].tensor_id
    &&& g.nodes()[c].dims == g0.nodes()[f].dims
    &&& g.nodes()[c].fake == g0.nodes()[f].fake
    &&& g.edges().dom().contains(en)
    &&& g.edges()[en] == (EdgeData { src: f, dst: c, weight: 0 })
    &&& forall|e: usize|
        #[trigger] g.edges().dom().contains(e) && g.edges()[e].src == f ==> e == en
    &&& forall|e: usize|
        #[trigger] g0.edges().dom().contains(e) && g0.edges()[e].src == f ==> exists|e2: usize|
            #[trigger] g.edges().dom().contains(e2) && g.edges()[e2] == (EdgeData {
                src: c,
                dst: g0.edges()[e].dst,
                weight: g0.edges()[e].weight,
            })
}

pub open spec fn copied_function(g0: Graph, g: Graph, f: usize) -> bool {
    exists|c: usize, en: usize| copied_function_via(g0, g, f, c, en)
}

/// Whether this Function node still needs its copy, read off the live
/// graph.
fn needs_copy_now(g: &Graph, f: usize) -> (r: bool)
    requires
        g.wf(),
    ensures
        r == needs_copy(*g, f),
{
    let outs = g.outgoing(f);
    let n = outs.len();
    if n == 0 {
        proof {
            assert forall|e: usize| #[trigger] g.edges().dom().contains(e) implies g.edges()[e].src
                != f by {
                if g.edges()[e].src == f {
                    let i = choose|i: int| 0 <= i < outs@.len() && outs@[i].0 == e;
                }
            }
        }
        return true;
    }
    let mut i: usize = 0;
    while i < n
        invariant
            i <= n,
            n == outs@.len(),
            g.wf(),
            forall|j: int, j2: int| 0 <= j < j2 < n as int ==> outs@[j].0 != outs@[j2].0,
            forall|j: int|
                0 <= j < n as int ==> g.edges().dom().contains(#[trigger] outs@[j].0) && g.edges()[
                    outs@[j].0
                ].src == f && g.edges()[outs@[j].0].dst == outs@[j].1 && g.edges()[outs@[j].0].weight
                    == outs@[j].2,
            forall|eid: usize|
                g.edges().dom().contains(eid) && (#[trigger] g.edges()[eid]).src == f
                    ==> exists|j: int| 0 <= j < n as int && outs@[j].0 == eid,
            forall|j: int|
                0 <= j < i as int ==> is_copy_to(g.nodes()[#[trigger] outs@[j].1].op),
        decreases n - i,
    {
        let dst = outs[i].1;
        let dst_op = match g.node_op(dst) {
            Some(op) => op,
            None => {
                proof {
                    assert(g.edges().dom().contains(outs@[i as int].0));
                    assert(false);
                }
                Op::Function
            },
        };
        let is_to = match dst_op {
            Op::CudaCopyToDevice => true,
            _ => false,
        };
        if !is_to {
            proof {
                let e = outs@[i as int].0;
                assert(g.edges().dom().contains(e) && g.edges()[e].src == f && !is_copy_to(
                    g.nodes()[g.edges()[e].dst].op,
                ));
            }
            return true;
        }
        i += 1;
    }
    proof {
        assert(g.edges().dom().contains(outs@[0].0) && g.edges()[outs@[0].0].src == f);
        assert forall|e: usize|
            #[trigger] g.edges().dom().contains(e) && g.edges()[e].src == f implies is_copy_to(
            g.nodes()[g.edges()[e].dst].op,
        ) by {
            let j = choose|j: int| 0 <= j < n as int && outs@[j].0 == e;
            assert(g.edges()[e].dst == outs@[j].1);
        }
    }
    false
}

/// Insert the host-to-device copy for one Function node and retarget all
/// its consumers to the copy.
fn insert_copy_for(g: &mut Graph, f: usize) -> (r: (usize, usize))
    requires
        old(g).wf(),
        old(g).nodes().dom().contains(f),
    ensures
        final(g).wf(),
        !old(g).nodes().dom().contains(r.0),
        final(g).nodes().dom() == old(g).nodes().dom().insert(r.0),
        forall|n: usize|
            #[trigger] old(g).nodes().dom().contains(n) ==> final(g).nodes().dom().contains(n)
                && final(g).nodes()[n] == old(g).nodes()[n],
        is_copy_to(final(g).nodes()[r.0].op),
        final(g).nodes()[r.0].tensor_id == old(g).nodes()[f].tensor_id,
        final(g).nodes()[r.0].dims == old(g).nodes()[f].dims,
        final(g).nodes()[r.0].fake == old(g).nodes()[f].fake,
        copied_function_via(*old(g), *final(g), f, r.0, r.1),
        forall|e: usize|
            #[trigger] old(g).edges().dom().contains(e) && old(g).edges()[e].src != f ==> final(g).edges().dom().contains(e) && final(g).edges()[e] == old(g).edges()[e],
        forall|e: usize|
            #[trigger] final(g).edges().dom().contains(e) ==> (old(g).edges().dom().contains(e)
                && final(g).edges()[e] == old(g).edges()[e] && old(g).edges()[e].src != f) || e
                == r.1 || final(g).edges()[e].src == r.0,
        final(g).retrieve() == if old(g).retrieve().contains(f) {
            old(g).retrieve().insert(r.0)
        } else {
            old(g).retrieve()
        },
        final(g).nodelete() == old(g).nodelete(),
        final(g).remap() == old(g).remap(),
{
    let ghost g0 = *old(g);
    let view = match g.node_view(f) {
        Some(v) => v,
        None => {
            proof {
                assert(false);
            }
            TensorView {
                tensor_id: 0,
                shape: crate::shape::ShapeTracker { dims: Vec::new(), fake: Vec::new() },
            }
        },
    };
    let rr = g.add_op(Op::CudaCopyToDevice, view, f);
    let c = rr.0;
    let en = rr.1;
    let ghost mid = *g;
    let outs = g.outgoing(f);
    let n = outs.len();
    proof {
        assert(mid.edges()[en].src == f);
        assert(c != f);
    }
    let mut j: usize = 0;
    while j < n
        invariant
            j <= n,
            n == outs@.len(),
            g.wf(),
            g0.wf(),
            g0.nodes().dom().contains(f),
            !g0.nodes().dom().contains(c),
            c != f,
            mid.nodes() == g0.nodes().insert(c, node_abs(NodeData { op: Op::CudaCopyToDevice, view: view })),
            mid.edges() == g0.edges().insert(en, (EdgeData { src: f, dst: c, weight: 0 })),
            !g0.edges().dom().contains(en),
            g.nodes() == mid.nodes(),
            g.retrieve() == g0.retrieve(),
            g.nodelete() == g0.nodelete(),
            g.remap() == g0.remap(),
            view.tensor_id == g0.nodes()[f].tensor_id,
            view.shape.dims@ == g0.nodes()[f].dims,
            view.shape.fake@ == g0.nodes()[f].fake,
            forall|j2: int, j3: int| 0 <= j2 < j3 < n as int ==> outs@[j2].0 != outs@[j3].0,
            forall|j2: int|
                0 <= j2 < n as int ==> mid.edges().dom().contains(#[trigger] outs@[j2].0)
                    && mid.edges()[outs@[j2].0].src == f && mid.edges()[outs@[j2].0].dst
                    == outs@[j2].1 && mid.edges()[outs@[j2].0].weight == outs@[j2].2,
            forall|eid: usize|
                mid.edges().dom().contains(eid) && (#[trigger] mid.edges()[eid]).src == f
                    ==> exists|j2: int| 0 <= j2 < n as int && outs@[j2].0 == eid,
            g.edges().dom().contains(en) && g.edges()[en] == (EdgeData { src: f, dst: c, weight: 0 }),
            forall|e: usize|
                #[trigger] mid.edges().dom().contains(e) && mid.edges()[e].src != f ==> g.edges().dom().contains(e)
                    && g.edges()[e] == mid.edges()[e],
            forall|j2: int|
                0 <= j2 < j as int && outs@[j2].1 != c ==> exists|e2: usize|
                    #[trigger] g.edges().dom().contains(e2) && g.edges()[e2] == (EdgeData {
                        src: c,
                        dst: outs@[j2].1,
                        weight: outs@[j2].2,
                    }),
            forall|j2: int|
                j as int <= j2 < n as int ==> g.edges().dom().contains(#[trigger] outs@[j2].0)
                    && g.edges()[outs@[j2].0] == mid.edges()[outs@[j2].0],
            forall|e: usize|
                #[trigger] g.edges().dom().contains(e) ==> (mid.edges().dom().contains(e)
                    && g.edges()[e] == mid.edges()[e] && (mid.edges()[e].src != f || e == en
                    || (exists|j2: int| j as int <= j2 < n as int && outs@[j2].0 == e)))
                    || g.edges()[e].src == c,
        decreases n - j,
    {
        let eid = outs[j].0;
        let dst = outs[j].1;
        let w = outs[j].2;
        let ghost pre = *g;
        if dst != c {
            proof {
                assert(g.edges().dom().contains(eid));
                assert(g.wf());
                assert(g.nodes().dom().contains(c));
                assert(g.nodes().dom().contains(dst)) by {
                    assert(g.edges()[eid].dst == dst);
                }
            }
            let e2 = g.add_edge(c, dst, w);
            let ghost mid2 = *g;
            let _removed = g.remove_edge(eid);
            proof {
                assert(mid2.edges().dom().contains(eid));
                assert(g.edges() == mid2.edges().remove(eid));
                assert(g.edges().dom().contains(e2) && g.edges()[e2] == (EdgeData { src: c, dst: dst, weight: w })) by {
                    assert(e2 != eid);
                }
                assert(g.edges().dom().contains(en) && g.edges()[en] == (EdgeData { src: f, dst: c, weight: 0 })) by {
                    assert(en != eid);
                }
                assert forall|j2: int|
                    0 <= j2 < j as int + 1 && outs@[j2].1 != c implies exists|e3: usize|
                    #[trigger] g.edges().dom().contains(e3) && g.edges()[e3] == (EdgeData {
                        src: c,
                        dst: outs@[j2].1,
                        weight: outs@[j2].2,
                    }) by {
                    if j2 < j as int {
                        let e3 = choose|e3: usize|
                            #[trigger] pre.edges().dom().contains(e3) && pre.edges()[e3]
                                == (EdgeData { src: c, dst: outs@[j2].1, weight: outs@[j2].2 });
                        assert(e3 != eid) by {
                            assert(pre.edges()[eid].src == f);
                        }
                        assert(mid2.edges().dom().contains(e3) && mid2.edges()[e3] == pre.edges()[e3]);
                        assert(g.edges().dom().contains(e3) && g.edges()[e3] == pre.edges()[e3]);
                    } else {
                        assert(g.edges().dom().contains(e2));
                    }
                }
                assert forall|j2: int|
                    j as int + 1 <= j2 < n as int implies g.edges().dom().contains(
                    #[trigger] outs@[j2].0,
                ) && g.edges()[outs@[j2].0] == mid.edges()[outs@[j2].0] by {
                    assert(outs@[j2].0 != eid);
                    assert(pre.edges().dom().contains(outs@[j2].0));
                    assert(outs@[j2].0 != e2);
                }
            }
        } else {
            proof {
                assert forall|j2: int|
                    0 <= j2 < j as int + 1 && outs@[j2].1 != c implies exists|e3: usize|
                    #[trigger] g.edges().dom().contains(e3) && g.edges()[e3] == (EdgeData {
                        src: c,
                        dst: outs@[j2].1,
                        weight: outs@[j2].2,
                    }) by {}
            }
        }
        j += 1;
    }
    if g.contains_retrieve(f) {
        g.mark_retrieve(c);
    }
    proof {
        assert(g.nodes().dom() =~= g0.nodes().dom().insert(c));
        assert(copied_function_via(g0, *g, f, c, en)) by {
            assert forall|e: usize|
                #[trigger] g.edges().dom().contains(e) && g.edges()[e].src == f implies e == en by {
                if g.edges()[e].src == c {
                    assert(false);
                } else {
                    assert(mid.edges().dom().contains(e) && g.edges()[e] == mid.edges()[e]);
                    if mid.edges()[e].src == f && e != en {
                        let j2 = choose|j2: int| j as int <= j2 < n as int && outs@[j2].0 == e;
                        assert(false);
                    }
                }
            }
            assert forall|e: usize|
                #[trigger] g0.edges().dom().contains(e) && g0.edges()[e].src == f implies exists|
                e2: usize,
            |
                #[trigger] g.edges().dom().contains(e2) && g.edges()[e2] == (EdgeData {
                    src: c,
                    dst: g0.edges()[e].dst,
                    weight: g0.edges()[e].weight,
                }) by {
                assert(mid.edges().dom().contains(e) && mid.edges()[e] == g0.edges()[e]) by {
                    assert(e != en);
                }
                let j2 = choose|j2: int| 0 <= j2 < n as int && outs@[j2].0 == e;
                assert(outs@[j2].1 == g0.edges()[e].dst && outs@[j2].2 == g0.edges()[e].weight);
                assert(outs@[j2].1 != c) by {
                    assert(g0.nodes().dom().contains(g0.edges()[e].dst));
                }
            }
        }
        assert forall|e: usize|
            #[trigger] old(g).edges().dom().contains(e) && old(g).edges()[e].src != f implies g.edges().dom().contains(e)
            && g.edges()[e] == old(g).edges()[e] by {
            assert(mid.edges().dom().contains(e) && mid.edges()[e] == old(g).edges()[e]) by {
                assert(e != en);
            }
        }
        assert forall|e: usize| #[trigger] g.edges().dom().contains(e) implies (old(
            g,
        ).edges().dom().contains(e) && g.edges()[e] == old(g).edges()[e] && old(g).edges()[e].src
            != f) || e == en || g.edges()[e].src == c by {
            if g.edges()[e].src != c && e != en {
                assert(mid.edges().dom().contains(e) && g.edges()[e] == mid.edges()[e]);
                if mid.edges()[e].src == f {
                    if e != en {
                        let j2 = choose|j2: int| j as int <= j2 < n as int && outs@[j2].0 == e;
                        assert(false);
                    }
                } else {
                    assert(old(g).edges().dom().contains(e) && mid.edges()[e] == old(g).edges()[e]);
                }
            }
        }
    }
    rr
}


/// One Phase A step (for Function `f`, fresh copy `c`, frontier edge
/// `en`) preserves the rewired frontier of every other Function `f2`.
proof fn lemma_via_preserved(
    g0: Graph,
    pre: Graph,
    post: Graph,
    f: usize,
    c: usize,
    en: usize,
    f2: usize,
    c2: usize,
    en2: usize,
)
    requires
        copied_function_via(g0, pre, f2, c2, en2),
        g0.wf(),
        pre.wf(),
        g0.nodes().dom().contains(f2),
        is_function(g0.nodes()[f2].op),
        f2 != f,
        g0.nodes().dom().contains(f),
        !pre.nodes().dom().contains(c),
        forall|n2: usize|
            #[trigger] pre.nodes().dom().contains(n2) ==> post.nodes().dom().contains(n2)
                && post.nodes()[n2] == pre.nodes()[n2],
        copied_function_via(pre, post, f, c, en),
        forall|e: usize|
            #[trigger] pre.edges().dom().contains(e) && pre.edges()[e].src != f
                ==> post.edges().dom().contains(e) && post.edges()[e] == pre.edges()[e],
        forall|e: usize|
            #[trigger] post.edges().dom().contains(e) ==> (pre.edges().dom().contains(e)
                && post.edges()[e] == pre.edges()[e] && pre.edges()[e].src != f) || e == en
                || post.edges()[e].src == c,
        forall|e: usize|
            #[trigger] pre.edges().dom().contains(e) && pre.edges()[e].src == f
                ==> g0.edges().dom().contains(e) && pre.edges()[e] == g0.edges()[e],
        forall|n2: usize|
            #[trigger] pre.nodes().dom().contains(n2) && !g0.nodes().dom().contains(n2)
                ==> is_copy_to(pre.nodes()[n2].op),
    ensures
        copied_function_via(g0, post, f2, c2, en2),
{
    assert(pre.nodes().dom().contains(c2));
    assert(post.nodes()[c2] == pre.nodes()[c2]);
    assert(c2 != f && c2 != c) by {
        assert(g0.nodes().dom().contains(f));
    }
    assert(pre.edges()[en2].src == f2);
    assert(post.edges().dom().contains(en2) && post.edges()[en2] == pre.edges()[en2]);
    assert forall|e: usize|
        #[trigger] post.edges().dom().contains(e) && post.edges()[e].src == f2 implies e == en2 by {
        if pre.edges().dom().contains(e) && post.edges()[e] == pre.edges()[e]
            && pre.edges()[e].src != f {
        } else if e == en {
            assert(post.edges()[en].src == f);
            assert(false);
        } else {
            assert(post.edges()[e].src == c);
            assert(c != f2) by {
                assert(pre.nodes().dom().contains(f2));
            }
            assert(false);
        }
    }
    assert forall|e: usize|
        #[trigger] g0.edges().dom().contains(e) && g0.edges()[e].src == f2 implies exists|e2: usize|
        #[trigger] post.edges().dom().contains(e2) && post.edges()[e2] == (EdgeData {
            src: c2,
            dst: g0.edges()[e].dst,
            weight: g0.edges()[e].weight,
        }) by {
        let e2 = choose|e2: usize|
            #[trigger] pre.edges().dom().contains(e2) && pre.edges()[e2] == (EdgeData {
                src: c2,
                dst: g0.edges()[e].dst,
                weight: g0.edges()[e].weight,
            });
        assert(pre.edges()[e2].src == c2 && c2 != f);
        assert(post.edges().dom().contains(e2) && post.edges()[e2] == pre.edges()[e2]);
    }
}

/// Insert host-to-device copies at the input frontier: every Function
/// node whose consumers do not already route through a copy gets one,
/// and its consumer edges are retargeted to the copy.
fn phase_a(g: &mut Graph)
    requires
        old(g).wf(),
    ensures
        final(g).wf(),
        forall|n: usize|
            #[trigger] old(g).nodes().dom().contains(n) ==> final(g).nodes().dom().contains(n)
                && final(g).nodes()[n] == old(g).nodes()[n],
        forall|n: usize|
            #[trigger] final(g).nodes().dom().contains(n) && !old(g).nodes().dom().contains(n)
                ==> is_copy_to(final(g).nodes()[n].op),
        forall|n: usize|
            #[trigger] final(g).retrieve().contains(n) ==> old(g).retrieve().contains(n) || (!old(
                g,
            ).nodes().dom().contains(n) && is_copy_to(final(g).nodes()[n].op)),
        forall|n: usize| #[trigger] old(g).retrieve().contains(n) ==> final(g).retrieve().contains(n),
        final(g).nodelete() == old(g).nodelete(),
        final(g).remap() == old(g).remap(),
        forall|e: usize|
            #[trigger] old(g).edges().dom().contains(e) && !(is_function(
                old(g).nodes()[old(g).edges()[e].src].op,
            ) && needs_copy(*old(g), old(g).edges()[e].src)) ==> final(g).edges().dom().contains(e)
                && final(g).edges()[e] == old(g).edges()[e],
        forall|f: usize|
            #[trigger] old(g).nodes().dom().contains(f) && is_function(old(g).nodes()[f].op)
                && needs_copy(*old(g), f) ==> exists|c: usize, en: usize|
                copied_function_via(*old(g), *final(g), f, c, en) && (old(g).retrieve().contains(f)
                    ==> final(g).retrieve().contains(c)),
        forall|n: usize|
            #[trigger] final(g).nodes().dom().contains(n) && !old(g).nodes().dom().contains(n)
                ==> exists|f: usize, en: usize|
                old(g).nodes().dom().contains(f) && is_function(old(g).nodes()[f].op)
                    && needs_copy(*old(g), f) && copied_function_via(*old(g), *final(g), f, n, en),
        forall|n: usize|
            #[trigger] final(g).retrieve().contains(n) && !old(g).retrieve().contains(n)
                ==> exists|f: usize, en: usize|
                old(g).retrieve().contains(f) && is_function(old(g).nodes()[f].op) && needs_copy(
                    *old(g),
                    f,
                ) && copied_function_via(*old(g), *final(g), f, n, en),
        forall|e: usize|
            #[trigger] final(g).edges().dom().contains(e) ==> {
                let d = final(g).edges()[e];
                ||| (old(g).edges().dom().contains(e) && final(g).edges()[e] == old(g).edges()[e])
                ||| (!old(g).nodes().dom().contains(d.src) && is_copy_to(final(g).nodes()[d.src].op))
                ||| (old(g).nodes().dom().contains(d.src) && is_function(old(g).nodes()[d.src].op)
                    && !old(g).nodes().dom().contains(d.dst) && is_copy_to(
                    final(g).nodes()[d.dst].op,
                ) && d.weight == 0)
            },
        (forall|f: usize|
            #[trigger] old(g).nodes().dom().contains(f) && is_function(old(g).nodes()[f].op)
                ==> !needs_copy(*old(g), f)) ==> final(g).nodes() == old(g).nodes() && final(g).edges() == old(g).edges() && final(g).retrieve() == old(g).retrieve() && final(g).nodelete() == old(g).nodelete() && final(g).remap() == old(g).remap(),
{
    let ghost g0 = *old(g);
    let ids = g.node_ids();
    let n = ids.len();
    let mut k: usize = 0;
    while k < n
        invariant
            k <= n,
            n == ids@.len(),
            g.wf(),
            g0.wf(),
            forall|i: int, j: int| 0 <= i < j < n as int ==> ids@[i] != ids@[j],
            forall|i: int| 0 <= i < n as int ==> g0.nodes().dom().contains(#[trigger] ids@[i]),
            forall|id: usize| #[trigger] g0.nodes().dom().contains(id) ==> ids@.contains(id),
            forall|n2: usize|
                #[trigger] g0.nodes().dom().contains(n2) ==> g.nodes().dom().contains(n2)
                    && g.nodes()[n2] == g0.nodes()[n2],
            forall|n2: usize|
                #[trigger] g.nodes().dom().contains(n2) && !g0.nodes().dom().contains(n2)
                    ==> is_copy_to(g.nodes()[n2].op),
            forall|n2: usize|
                #[trigger] g.retrieve().contains(n2) ==> g0.retrieve().contains(n2) || (
                !g0.nodes().dom().contains(n2) && is_copy_to(g.nodes()[n2].op)),
            forall|n2: usize| #[trigger] g0.retrieve().contains(n2) ==> g.retrieve().contains(n2),
            g.nodelete() == g0.nodelete(),
            g.remap() == g0.remap(),
            forall|e: usize|
                #[trigger] g0.edges().dom().contains(e) && !(is_function(
                    g0.nodes()[g0.edges()[e].src].op,
                ) && needs_copy(g0, g0.edges()[e].src) && ids@.take(k as int).contains(
                    g0.edges()[e].src,
                )) ==> g.edges().dom().contains(e) && g.edges()[e] == g0.edges()[e],
            forall|i: int|
                0 <= i < k as int && is_function(g0.nodes()[#[trigger] ids@[i]].op) && needs_copy(
                    g0,
                    ids@[i],
                ) ==> exists|c2: usize, en2: usize|
                    copied_function_via(g0, *g, ids@[i], c2, en2) && (g0.retrieve().contains(
                        ids@[i],
                    ) ==> g.retrieve().contains(c2)),
            forall|n2: usize|
                #[trigger] g.nodes().dom().contains(n2) && !g0.nodes().dom().contains(n2)
                    ==> exists|f2: usize, en2: usize|
                    g0.nodes().dom().contains(f2) && is_function(g0.nodes()[f2].op) && needs_copy(
                        g0,
                        f2,
                    ) && copied_function_via(g0, *g, f2, n2, en2),
            forall|n2: usize|
                #[trigger] g.retrieve().contains(n2) && !g0.retrieve().contains(n2)
                    ==> exists|f2: usize, en2: usize|
                    g0.retrieve().contains(f2) && is_function(g0.nodes()[f2].op) && needs_copy(
                        g0,
                        f2,
                    ) && copied_function_via(g0, *g, f2, n2, en2),
            forall|e: usize|
                #[trigger] g.edges().dom().contains(e) ==> {
                    let d = g.edges()[e];
                    ||| (g0.edges().dom().contains(e) && g.edges()[e] == g0.edges()[e])
                    ||| (!g0.nodes().dom().contains(d.src) && is_copy_to(g.nodes()[d.src].op))
                    ||| (g0.nodes().dom().contains(d.src) && is_function(g0.nodes()[d.src].op)
                        && ids@.take(k as int).contains(d.src) && !g0.nodes().dom().contains(d.dst)
                        && is_copy_to(g.nodes()[d.dst].op) && d.weight == 0)
                },
            (forall|f: usize|
                #[trigger] g0.nodes().dom().contains(f) && is_function(g0.nodes()[f].op)
                    ==> !needs_copy(g0, f)) ==> g.nodes() == g0.nodes() && g.edges() == g0.edges()
                && g.retrieve() == g0.retrieve() && g.nodelete() == g0.nodelete() && g.remap()
                == g0.remap(),
        decreases n - k,
    {
        let f = ids[k];
        let ghost pre = *g;
        let op = match g.node_op(f) {
            Some(op) => op,
            None => {
                proof {
                    assert(false);
                }
                Op::Function
            },
        };
        let is_fun = match op {
            Op::Function => true,
            _ => false,
        };
        proof {
            assert(op == g0.nodes()[f].op);
            assert(!ids@.take(k as int).contains(f)) by {
                if ids@.take(k as int).contains(f) {
                    let i2 = choose|i2: int| 0 <= i2 < k as int && ids@.take(k as int)[i2] == f;
                }
            }
        }
        if is_fun {
            proof {
                assert(needs_copy(*g, f) == needs_copy(g0, f)) by {
                    if needs_copy(g0, f) {
                        if exists|e: usize|
                            #[trigger] g0.edges().dom().contains(e) && g0.edges()[e].src == f
                                && !is_copy_to(g0.nodes()[g0.edges()[e].dst].op) {
                            let e = choose|e: usize|
                                #[trigger] g0.edges().dom().contains(e) && g0.edges()[e].src == f
                                    && !is_copy_to(g0.nodes()[g0.edges()[e].dst].op);
                            assert(g.edges().dom().contains(e) && g.edges()[e] == g0.edges()[e]);
                            assert(g0.nodes().dom().contains(g0.edges()[e].dst));
                            assert(g.nodes()[g.edges()[e].dst] == g0.nodes()[g0.edges()[e].dst]);
                            assert(needs_copy(*g, f));
                        } else {
                            assert(forall|e: usize|
                                #[trigger] g0.edges().dom().contains(e) ==> g0.edges()[e].src != f);
                            assert forall|e: usize| #[trigger] g.edges().dom().contains(e) implies g.edges()[e].src
                                != f by {
                                let d = g.edges()[e];
                                if d.src == f {
                                    assert(g0.nodes().dom().contains(f));
                                }
                            }
                            assert(needs_copy(*g, f));
                        }
                    }
                    if needs_copy(*g, f) {
                        if exists|e: usize|
                            #[trigger] g.edges().dom().contains(e) && g.edges()[e].src == f
                                && !is_copy_to(g.nodes()[g.edges()[e].dst].op) {
                            let e = choose|e: usize|
                                #[trigger] g.edges().dom().contains(e) && g.edges()[e].src == f
                                    && !is_copy_to(g.nodes()[g.edges()[e].dst].op);
                            let d = g.edges()[e];
                            assert(g0.edges().dom().contains(e) && g.edges()[e] == g0.edges()[e]);
                            assert(g0.nodes().dom().contains(g0.edges()[e].dst));
                            assert(g.nodes()[g0.edges()[e].dst] == g0.nodes()[g0.edges()[e].dst]);
                            assert(needs_copy(g0, f));
                        } else {
                            assert forall|e: usize| #[trigger] g0.edges().dom().contains(e) implies g0.edges()[e].src
                                != f by {
                                if g0.edges()[e].src == f {
                                    assert(g.edges().dom().contains(e) && g.edges()[e] == g0.edges()[e]);
                                }
                            }
                            assert(needs_copy(g0, f));
                        }
                    }
                }
            }
            if needs_copy_now(g, f) {
                proof {
                    assert(needs_copy(g0, f));
                    if forall|f2: usize|
                        #[trigger] g0.nodes().dom().contains(f2) && is_function(g0.nodes()[f2].op)
                            ==> !needs_copy(g0, f2) {
                        assert(!needs_copy(g0, f));
                        assert(false);
                    }
                }
                let rr = insert_copy_for(g, f);
                let ghost c = rr.0;
                let ghost en = rr.1;
                proof {
                    assert forall|e: usize|
                        #[trigger] pre.edges().dom().contains(e) && pre.edges()[e].src == f implies g0.edges().dom().contains(
                        e,
                    ) && pre.edges()[e] == g0.edges()[e] by {
                        let d = pre.edges()[e];
                        if g0.edges().dom().contains(e) && pre.edges()[e] == g0.edges()[e] {
                        } else if !g0.nodes().dom().contains(d.src) {
                            assert(g0.nodes().dom().contains(f));
                            assert(false);
                        } else {
                            assert(ids@.take(k as int).contains(d.src));
                            assert(false);
                        }
                    }
                    assert(copied_function_via(g0, *g, f, c, en)) by {
                        assert(copied_function_via(pre, *g, f, c, en));
                        assert(pre.nodes()[f] == g0.nodes()[f]);
                        assert forall|e: usize|
                            #[trigger] g0.edges().dom().contains(e) && g0.edges()[e].src == f implies exists|e2: usize|
                            #[trigger] g.edges().dom().contains(e2) && g.edges()[e2] == (EdgeData {
                                src: c,
                                dst: g0.edges()[e].dst,
                                weight: g0.edges()[e].weight,
                            }) by {
                            assert(pre.edges().dom().contains(e) && pre.edges()[e] == g0.edges()[e]);
                        }
                    }
                    assert forall|i: int|
                        0 <= i < k as int + 1 && is_function(g0.nodes()[#[trigger] ids@[i]].op)
                            && needs_copy(g0, ids@[i]) implies exists|c2: usize, en2: usize|
                        copied_function_via(g0, *g, ids@[i], c2, en2) && (g0.retrieve().contains(
                            ids@[i],
                        ) ==> g.retrieve().contains(c2)) by {
                        if i < k as int {
                            let (c2, en2): (usize, usize) = choose|c2: usize, en2: usize|
                                copied_function_via(g0, pre, ids@[i], c2, en2) && (
                                g0.retrieve().contains(ids@[i]) ==> pre.retrieve().contains(c2));
                            assert(ids@[i] != f);
                            lemma_via_preserved(g0, pre, *g, f, c, en, ids@[i], c2, en2);
                            assert(g0.retrieve().contains(ids@[i]) ==> g.retrieve().contains(c2));
                        } else {
                            assert(g0.retrieve().contains(f) ==> g.retrieve().contains(c)) by {
                                if g0.retrieve().contains(f) {
                                    assert(pre.retrieve().contains(f));
                                }
                            }
                        }
                    }
                    assert forall|f2: usize|
                        g.nodes().dom().contains(f2) && !g0.nodes().dom().contains(f2) && exists|
                        en2: usize,
                    |
                        copied_function_via(g0, pre, f, f2, en2) implies false by {
                        let en2 = choose|en2: usize| copied_function_via(g0, pre, f, f2, en2);
                        assert(pre.edges().dom().contains(en2) && pre.edges()[en2].src == f);
                        assert(is_copy_to(pre.nodes()[pre.edges()[en2].dst].op));
                        assert(!needs_copy(pre, f)) by {
                            assert forall|e: usize|
                                #[trigger] pre.edges().dom().contains(e) && pre.edges()[e].src == f
                                    implies is_copy_to(pre.nodes()[pre.edges()[e].dst].op) by {
                                assert(e == en2);
                            }
                        }
                        assert(needs_copy(pre, f));
                    }
                    assert forall|n2: usize|
                        #[trigger] g.nodes().dom().contains(n2) && !g0.nodes().dom().contains(n2)
                            implies exists|f2: usize, en2: usize|
                        g0.nodes().dom().contains(f2) && is_function(g0.nodes()[f2].op)
                            && needs_copy(g0, f2) && copied_function_via(g0, *g, f2, n2, en2) by {
                        if n2 == c {
                            assert(copied_function_via(g0, *g, f, c, en));
                        } else {
                            assert(pre.nodes().dom().contains(n2));
                            let (f2, en2): (usize, usize) = choose|f2: usize, en2: usize|
                                g0.nodes().dom().contains(f2) && is_function(g0.nodes()[f2].op)
                                    && needs_copy(g0, f2) && copied_function_via(
                                    g0,
                                    pre,
                                    f2,
                                    n2,
                                    en2,
                                );
                            assert(f2 != f);
                            lemma_via_preserved(g0, pre, *g, f, c, en, f2, n2, en2);
                        }
                    }
                    assert forall|n2: usize|
                        #[trigger] g.retrieve().contains(n2) && !g0.retrieve().contains(n2)
                            implies exists|f2: usize, en2: usize|
                        g0.retrieve().contains(f2) && is_function(g0.nodes()[f2].op) && needs_copy(
                            g0,
                            f2,
                        ) && copied_function_via(g0, *g, f2, n2, en2) by {
                        if n2 == c && !pre.retrieve().contains(c) {
                            assert(pre.retrieve().contains(f));
                            assert(g0.retrieve().contains(f)) by {
                                if !g0.retrieve().contains(f) {
                                    let (f3, en3): (usize, usize) = choose|f3: usize, en3: usize|
                                        g0.retrieve().contains(f3) && is_function(
                                            g0.nodes()[f3].op,
                                        ) && needs_copy(g0, f3) && copied_function_via(
                                            g0,
                                            pre,
                                            f3,
                                            f,
                                            en3,
                                        );
                                    assert(!g0.nodes().dom().contains(f));
                                }
                            }
                            assert(copied_function_via(g0, *g, f, c, en));
                        } else {
                            assert(pre.retrieve().contains(n2));
                            let (f2, en2): (usize, usize) = choose|f2: usize, en2: usize|
                                g0.retrieve().contains(f2) && is_function(g0.nodes()[f2].op)
                                    && needs_copy(g0, f2) && copied_function_via(
                                    g0,
                                    pre,
                                    f2,
                                    n2,
                                    en2,
                                );
                            assert(f2 != f);
                            lemma_via_preserved(g0, pre, *g, f, c, en, f2, n2, en2);
                        }
                    }
                    assert(ids@.take(k as int + 1)[k as int] == f);
                    assert forall|e: usize|
                        #[trigger] g0.edges().dom().contains(e) && !(is_function(
                            g0.nodes()[g0.edges()[e].src].op,
                        ) && needs_copy(g0, g0.edges()[e].src) && ids@.take(k as int + 1).contains(
                            g0.edges()[e].src,
                        )) implies g.edges().dom().contains(e) && g.edges()[e] == g0.edges()[e] by {
                        assert(!(is_function(g0.nodes()[g0.edges()[e].src].op) && needs_copy(
                            g0,
                            g0.edges()[e].src,
                        ) && ids@.take(k as int).contains(g0.edges()[e].src))) by {
                            if ids@.take(k as int).contains(g0.edges()[e].src) {
                                let i2 = choose|i2: int|
                                    0 <= i2 < k as int && ids@.take(k as int)[i2] == g0.edges()[e].src;
                                assert(ids@.take(k as int + 1)[i2] == g0.edges()[e].src);
                            }
                        }
                        assert(pre.edges().dom().contains(e) && pre.edges()[e] == g0.edges()[e]);
                        assert(g0.edges()[e].src != f) by {
                            if g0.edges()[e].src == f {
                                assert(ids@.take(k as int + 1).contains(f));
                            }
                        }
                    }
                    assert forall|e: usize| #[trigger] g.edges().dom().contains(e) implies {
                        let d = g.edges()[e];
                        ||| (g0.edges().dom().contains(e) && g.edges()[e] == g0.edges()[e])
                        ||| (!g0.nodes().dom().contains(d.src) && is_copy_to(g.nodes()[d.src].op))
                        ||| (g0.nodes().dom().contains(d.src) && is_function(g0.nodes()[d.src].op)
                            && ids@.take(k as int + 1).contains(d.src) && !g0.nodes().dom().contains(
                            d.dst,
                        ) && is_copy_to(g.nodes()[d.dst].op) && d.weight == 0)
                    } by {
                        let d = g.edges()[e];
                        if pre.edges().dom().contains(e) && g.edges()[e] == pre.edges()[e]
                            && pre.edges()[e].src != f {
                            let dp = pre.edges()[e];
                            assert forall|i2: int|
                                0 <= i2 < k as int && ids@.take(k as int)[i2] == dp.src implies ids@.take(
                                k as int + 1,
                            ).contains(dp.src) by {
                                assert(ids@.take(k as int + 1)[i2] == dp.src);
                            }
                            if !g0.nodes().dom().contains(dp.dst) && pre.nodes().dom().contains(dp.dst) {
                                assert(g.nodes()[dp.dst] == pre.nodes()[dp.dst]);
                            }
                            if !g0.nodes().dom().contains(dp.src) && pre.nodes().dom().contains(dp.src) {
                                assert(g.nodes()[dp.src] == pre.nodes()[dp.src]);
                            }
                        } else if e == rr.1 {
                            assert(d == (EdgeData { src: f, dst: c, weight: 0 }));
                            assert(ids@.take(k as int + 1).contains(f));
                            assert(is_copy_to(g.nodes()[c].op));
                        } else {
                            assert(d.src == c);
                            assert(is_copy_to(g.nodes()[c].op));
                        }
                    }
                }
            } else {
                proof {
                    assert(!needs_copy(g0, f));
                    lemma_take_grow(ids@, k as int, f);
                }
            }
        } else {
            proof {
                lemma_take_grow(ids@, k as int, f);
                assert forall|i: int|
                    0 <= i < k as int + 1 && is_function(g0.nodes()[#[trigger] ids@[i]].op)
                        && needs_copy(g0, ids@[i]) implies copied_function(g0, *g, ids@[i]) by {
                    if i == k as int {
                        assert(g0.nodes()[f].op == op);
                        assert(false);
                    }
                }
            }
        }
        k += 1;
    }
    proof {
        assert forall|f: usize|
            #[trigger] g0.nodes().dom().contains(f) && is_function(g0.nodes()[f].op) && needs_copy(
                g0,
                f,
            ) implies exists|c: usize, en: usize|
            copied_function_via(g0, *g, f, c, en) && (g0.retrieve().contains(f)
                ==> g.retrieve().contains(c)) by {
            let i = choose|i: int| 0 <= i < ids@.len() && ids@[i] == f;
        }
    }
}

/// Growing a processed prefix only weakens "not yet visited", and the
/// invariants that mention `take` carry over.
proof fn lemma_take_grow(ids: Seq<usize>, k: int, f: usize)
    requires
        0 <= k < ids.len(),
        ids[k] == f,
    ensures
        ids.take(k + 1).contains(f),
        forall|x: usize| ids.take(k).contains(x) ==> ids.take(k + 1).contains(x),
{
    assert(ids.take(k + 1)[k] == f);
    assert forall|x: usize| ids.take(k).contains(x) implies ids.take(k + 1).contains(x) by {
        let i = choose|i: int| 0 <= i < k && ids.take(k)[i] == x;
        assert(ids.take(k + 1)[i] == x);
    }
}

/// Convert all host primitive ops to CUDA primitive ops, and insert
/// copy-to-device and copy-from-device ops at the graph's frontiers.
#[derive(Debug, Default)]
pub struct CudaPrimitiveOptimizer;

impl CudaPrimitiveOptimizer {
    /// Rewrite the graph in place.  Node identities, edges and views of
    /// existing nodes are preserved; only transfer nodes are inserted;
    /// and on an already-optimized graph this is the identity.
    pub fn optimize(&self, g: &mut Graph)
        requires
            old(g).wf(),
        ensures
            final(g).wf(),
            forall|n: usize|
                #[trigger] old(g).nodes().dom().contains(n) ==> final(g).nodes().dom().contains(n)
                    && {
                    let post = final(g).nodes()[n];
                    let pre = old(g).nodes()[n];
                    post.op == spec_subst(pre.op) && post.tensor_id == pre.tensor_id && post.dims
                        == pre.dims && post.fake == pre.fake
                },
            forall|n: usize|
                #[trigger] final(g).nodes().dom().contains(n) && !old(g).nodes().dom().contains(n)
                    ==> is_copy(final(g).nodes()[n].op),
            forall|e: usize|
                #[trigger] old(g).edges().dom().contains(e) && !is_function(
                    old(g).nodes()[old(g).edges()[e].src].op,
                ) ==> final(g).edges().dom().contains(e) && final(g).edges()[e] == old(g).edges()[e],
            forall|f: usize|
                #[trigger] old(g).nodes().dom().contains(f) && is_function(old(g).nodes()[f].op)
                    && needs_copy(*old(g), f) ==> copied_function(*old(g), *final(g), f),
            host_only(old(g).nodes()) ==> forall|e: usize|
                #[trigger] final(g).edges().dom().contains(e) && !is_function(
                    final(g).nodes()[final(g).edges()[e].dst].op,
                ) && !is_copy(final(g).nodes()[final(g).edges()[e].dst].op) ==> (is_cuda_compute(
                    final(g).nodes()[final(g).edges()[e].src].op,
                ) || is_copy_to(final(g).nodes()[final(g).edges()[e].src].op)),
            host_only(old(g).nodes()) ==> forall|f: usize|
                #[trigger] final(g).nodes().dom().contains(f) && is_function(final(g).nodes()[f].op)
                    ==> old(g).nodes().dom().contains(f) && copied_function(
                    *old(g),
                    *final(g),
                    f,
                ),
            (host_only(old(g).nodes()) && (forall|n: usize|
                #[trigger] old(g).retrieve().contains(n) ==> !is_function(old(g).nodes()[n].op)))
                ==> forall|n: usize|
                #[trigger] final(g).retrieve().contains(n) ==> final(g).nodes().dom().contains(n)
                    && is_copy_from(final(g).nodes()[n].op),
            forall|n: usize|
                #[trigger] old(g).retrieve().contains(n) && !is_function(old(g).nodes()[n].op)
                    && !is_copy_from(old(g).nodes()[n].op) ==> exists|d: usize|
                    phase_b_moved(*old(g), *final(g), n, d),
            forall|n: usize|
                #[trigger] old(g).retrieve().contains(n) && is_function(old(g).nodes()[n].op)
                    ==> final(g).retrieve().contains(n),
            forall|n: usize|
                #[trigger] final(g).retrieve().contains(n) ==> (old(g).retrieve().contains(n) && (
                is_function(old(g).nodes()[n].op) || is_copy_from(old(g).nodes()[n].op))) || (!old(
                    g,
                ).nodes().dom().contains(n) && is_copy_from(final(g).nodes()[n].op)),
            forall|n: usize|
                #[trigger] final(g).nodes().dom().contains(n) && !old(g).nodes().dom().contains(n)
                    && is_copy_to(final(g).nodes()[n].op) ==> exists|f: usize, en: usize|
                    old(g).nodes().dom().contains(f) && is_function(old(g).nodes()[f].op)
                        && needs_copy(*old(g), f) && copied_function_via(*old(g), *final(g), f, n, en),
            forall|n: usize|
                #[trigger] final(g).nodes().dom().contains(n) && !old(g).nodes().dom().contains(n)
                    && is_copy_from(final(g).nodes()[n].op) ==> exists|m: usize, e: usize|
                    final(g).edges().dom().contains(e) && final(g).edges()[e] == (EdgeData {
                        src: m,
                        dst: n,
                        weight: 0,
                    }) && final(g).retrieve().contains(n) && final(g).remap().dom().contains(m)
                        && final(g).remap()[m] == n,
            host_only(old(g).nodes()) ==> optimized_form(*final(g)),
            optimized_form(*old(g)) ==> final(g).nodes() == old(g).nodes() && final(g).edges()
                == old(g).edges() && final(g).retrieve() == old(g).retrieve() && final(g).nodelete()
                == old(g).nodelete() && final(g).remap() == old(g).remap(),
    {
        let ghost g0 = *old(g);
        phase_a(g);
        let ghost ga = *g;
        phase_b(g);
        let ghost gb = *g;
        phase_c(g);
        proof {
            reveal(phase_b_moved);
            assert forall|n: usize|
                #[trigger] g0.retrieve().contains(n) && !is_function(g0.nodes()[n].op)
                    && !is_copy_from(g0.nodes()[n].op) implies exists|d: usize|
                phase_b_moved(g0, *g, n, d) by {
                assert(g0.nodes().dom().contains(n));
                assert(ga.retrieve().contains(n));
                assert(ga.nodes().dom().contains(n) && ga.nodes()[n] == g0.nodes()[n]);
                let d = choose|d: usize| phase_b_moved(ga, gb, n, d);
                lemma_moved_through(g0, ga, gb, *g, n, d);
            }
            assert forall|n: usize|
                #[trigger] g0.retrieve().contains(n) && is_function(g0.nodes()[n].op) implies g.retrieve().contains(
                n,
            ) by {
                assert(ga.retrieve().contains(n));
                assert(g0.nodes().dom().contains(n));
                assert(ga.nodes()[n] == g0.nodes()[n]);
                assert(gb.retrieve().contains(n));
            }
            assert forall|n: usize| #[trigger] g.retrieve().contains(n) implies (
            g0.retrieve().contains(n) && (is_function(g0.nodes()[n].op) || is_copy_from(
                g0.nodes()[n].op,
            ))) || (!g0.nodes().dom().contains(n) && is_copy_from(g.nodes()[n].op)) by {
                assert(gb.retrieve().contains(n));
                if ga.retrieve().contains(n) && (is_function(ga.nodes()[n].op) || is_copy_from(
                    ga.nodes()[n].op,
                )) {
                    if g0.retrieve().contains(n) {
                        assert(g0.nodes().dom().contains(n));
                        assert(ga.nodes()[n] == g0.nodes()[n]);
                    } else {
                        assert(!g0.nodes().dom().contains(n) && is_copy_to(ga.nodes()[n].op));
                        assert(false);
                    }
                } else {
                    assert(!ga.nodes().dom().contains(n));
                    let m = choose|m: usize| phase_b_moved(ga, gb, m, n);
                    assert(is_copy_from(gb.nodes()[n].op));
                    assert(gb.nodes().dom().contains(n));
                    assert(g.nodes()[n].op == spec_subst(gb.nodes()[n].op));
                    assert(!g0.nodes().dom().contains(n));
                }
            }
            assert forall|n: usize|
                #[trigger] g.nodes().dom().contains(n) && !g0.nodes().dom().contains(n)
                    && is_copy_to(g.nodes()[n].op) implies exists|f: usize, en: usize|
                g0.nodes().dom().contains(f) && is_function(g0.nodes()[f].op) && needs_copy(g0, f)
                    && copied_function_via(g0, *g, f, n, en) by {
                assert(gb.nodes().dom().contains(n));
                if ga.nodes().dom().contains(n) {
                    let (f, en): (usize, usize) = choose|f: usize, en: usize|
                        g0.nodes().dom().contains(f) && is_function(g0.nodes()[f].op)
                            && needs_copy(g0, f) && copied_function_via(g0, ga, f, n, en);
                    lemma_copied_through(g0, ga, gb, *g, f, n, en);
                } else {
                    let m = choose|m: usize| phase_b_moved(ga, gb, m, n);
                    assert(is_copy_from(gb.nodes()[n].op));
                    assert(g.nodes()[n].op == spec_subst(gb.nodes()[n].op));
                    assert(false);
                }
            }
            assert forall|n: usize|
                #[trigger] g.nodes().dom().contains(n) && !g0.nodes().dom().contains(n)
                    && is_copy_from(g.nodes()[n].op) implies exists|m: usize, e: usize|
                g.edges().dom().contains(e) && g.edges()[e] == (EdgeData {
                    src: m,
                    dst: n,
                    weight: 0,
                }) && g.retrieve().contains(n) && g.remap().dom().contains(m) && g.remap()[m]
                    == n by {
                assert(gb.nodes().dom().contains(n));
                if ga.nodes().dom().contains(n) {
                    assert(is_copy_to(ga.nodes()[n].op));
                    assert(gb.nodes()[n] == ga.nodes()[n]);
                    assert(g.nodes()[n].op == spec_subst(gb.nodes()[n].op));
                    assert(false);
                } else {
                    let m = choose|m: usize| phase_b_moved(ga, gb, m, n);
                    let e = choose|e: usize|
                        #[trigger] gb.edges().dom().contains(e) && gb.edges()[e] == (EdgeData {
                            src: m,
                            dst: n,
                            weight: 0,
                        });
                    assert(g.edges().dom().contains(e));
                    assert(gb.retrieve().contains(n) && gb.remap().dom().contains(m)
                        && gb.remap()[m] == n);
                }
            }
            // Node stability and substitution.
            assert forall|n: usize| #[trigger] g0.nodes().dom().contains(n) implies g.nodes().dom().contains(n)
                && {
                let post = g.nodes()[n];
                let pre = g0.nodes()[n];
                post.op == spec_subst(pre.op) && post.tensor_id == pre.tensor_id && post.dims
                    == pre.dims && post.fake == pre.fake
            } by {
                assert(ga.nodes().dom().contains(n) && ga.nodes()[n] == g0.nodes()[n]);
                assert(gb.nodes().dom().contains(n) && gb.nodes()[n] == ga.nodes()[n]);
            }
            assert forall|n: usize|
                #[trigger] g.nodes().dom().contains(n) && !g0.nodes().dom().contains(n) implies is_copy(
                g.nodes()[n].op,
            ) by {
                assert(gb.nodes().dom().contains(n));
                if ga.nodes().dom().contains(n) {
                    assert(is_copy_to(ga.nodes()[n].op));
                    assert(gb.nodes()[n] == ga.nodes()[n]);
                } else {
                    assert(is_copy_from(gb.nodes()[n].op));
                }
            }
            // Non-Function edges survive.
            assert forall|e: usize|
                #[trigger] g0.edges().dom().contains(e) && !is_function(
                    g0.nodes()[g0.edges()[e].src].op,
                ) implies g.edges().dom().contains(e) && g.edges()[e] == g0.edges()[e] by {
                assert(ga.edges().dom().contains(e) && ga.edges()[e] == g0.edges()[e]);
                assert(gb.edges().dom().contains(e) && gb.edges()[e] == ga.edges()[e]);
            }
            // Rewired Function frontiers carry to the final graph.
            assert forall|f: usize|
                #[trigger] g0.nodes().dom().contains(f) && is_function(g0.nodes()[f].op)
                    && needs_copy(g0, f) implies copied_function(g0, *g, f) by {
                assert(copied_function(g0, ga, f));
                let (c, en): (usize, usize) = choose|c: usize, en: usize|
                    copied_function_via(g0, ga, f, c, en);
                lemma_copied_through(g0, ga, gb, *g, f, c, en);
            }
            // P1.
            if host_only(g0.nodes()) {
                assert forall|e: usize|
                    #[trigger] g.edges().dom().contains(e) && !is_function(
                        g.nodes()[g.edges()[e].dst].op,
                    ) && !is_copy(g.nodes()[g.edges()[e].dst].op) implies (is_cuda_compute(
                    g.nodes()[g.edges()[e].src].op,
                ) || is_copy_to(g.nodes()[g.edges()[e].src].op)) by {
                    let d = g.edges()[e];
                    assert(gb.edges().dom().contains(e) && gb.edges()[e] == d);
                    if ga.edges().dom().contains(e) && gb.edges()[e] == ga.edges()[e] {
                        if g0.edges().dom().contains(e) && ga.edges()[e] == g0.edges()[e] {
                            let s = g0.edges()[e].src;
                            assert(g0.nodes().dom().contains(s));
                            if is_function(g0.nodes()[s].op) {
                                assert(needs_copy(g0, s)) by {
                                    assert(g0.nodes().dom().contains(g0.edges()[e].dst));
                                    assert(!is_copy_to(g0.nodes()[g0.edges()[e].dst].op));
                                }
                                assert(copied_function(g0, ga, s));
                                let (c, en): (usize, usize) = choose|c: usize, en: usize|
                                    copied_function_via(g0, ga, s, c, en);
                                assert(e == en);
                                assert(ga.edges()[en].dst == c && is_copy_to(ga.nodes()[c].op));
                                assert(gb.nodes()[c] == ga.nodes()[c]);
                                assert(is_copy(g.nodes()[d.dst].op));
                                assert(false);
                            } else {
                                assert(is_host_compute(g0.nodes()[s].op));
                                assert(ga.nodes()[s] == g0.nodes()[s]);
                                assert(gb.nodes()[s] == ga.nodes()[s]);
                                assert(g.nodes()[s].op == spec_subst(gb.nodes()[s].op)) by {
                                    assert(gb.nodes().dom().contains(s));
                                }
                                assert(is_cuda_compute(g.nodes()[d.src].op));
                            }
                        } else {
                            if !g0.nodes().dom().contains(d.src) && is_copy_to(ga.nodes()[d.src].op) {
                                assert(gb.nodes()[d.src] == ga.nodes()[d.src]);
                                assert(gb.nodes().dom().contains(d.src));
                                assert(is_copy_to(g.nodes()[d.src].op));
                            } else {
                                assert(!g0.nodes().dom().contains(d.dst) && is_copy_to(
                                    ga.nodes()[d.dst].op,
                                ) && d.weight == 0);
                                assert(gb.nodes()[d.dst] == ga.nodes()[d.dst]);
                                assert(gb.nodes().dom().contains(d.dst));
                                assert(is_copy(g.nodes()[d.dst].op));
                                assert(false);
                            }
                        }
                    } else {
                        assert(!ga.edges().dom().contains(e));
                        assert(!ga.nodes().dom().contains(d.dst) && is_copy_from(
                            gb.nodes()[d.dst].op,
                        ));
                        assert(gb.nodes().dom().contains(d.dst));
                        assert(is_copy(g.nodes()[d.dst].op));
                        assert(false);
                    }
                }
                // P2.
                assert forall|f: usize|
                    #[trigger] g.nodes().dom().contains(f) && is_function(g.nodes()[f].op) implies g0.nodes().dom().contains(
                    f,
                ) && copied_function(g0, *g, f) by {
                    assert(gb.nodes().dom().contains(f));
                    if !g0.nodes().dom().contains(f) {
                        if ga.nodes().dom().contains(f) {
                            assert(is_copy_to(ga.nodes()[f].op));
                            assert(gb.nodes()[f] == ga.nodes()[f]);
                            assert(g.nodes()[f].op == spec_subst(gb.nodes()[f].op));
                            assert(false);
                        } else {
                            assert(is_copy_from(gb.nodes()[f].op));
                            assert(g.nodes()[f].op == spec_subst(gb.nodes()[f].op));
                            assert(false);
                        }
                    }
                    assert(ga.nodes()[f] == g0.nodes()[f] && gb.nodes()[f] == ga.nodes()[f]);
                    assert(g.nodes()[f].op == spec_subst(g0.nodes()[f].op));
                    assert(is_function(g0.nodes()[f].op)) by {
                        if !is_function(g0.nodes()[f].op) {
                            assert(is_host_compute(g0.nodes()[f].op));
                            assert(!is_function(spec_subst(g0.nodes()[f].op)));
                        }
                    }
                    assert(needs_copy(g0, f)) by {
                        lemma_host_only_needs_copy(g0, f);
                    }
                }
                // The optimized form is established.
                assert(optimized_form(*g)) by {
                    assert forall|f: usize|
                        #[trigger] g.nodes().dom().contains(f) && is_function(g.nodes()[f].op) implies !needs_copy(
                        *g,
                        f,
                    ) by {
                        assert(copied_function(g0, *g, f));
                        let (c, en): (usize, usize) = choose|c: usize, en: usize|
                            copied_function_via(g0, *g, f, c, en);
                        assert(g.edges().dom().contains(en) && g.edges()[en].src == f);
                        assert forall|e: usize|
                            #[trigger] g.edges().dom().contains(e) && g.edges()[e].src == f implies is_copy_to(
                            g.nodes()[g.edges()[e].dst].op,
                        ) by {
                            assert(e == en);
                            assert(g.edges()[e].dst == c);
                        }
                    }
                    assert forall|n: usize| #[trigger] g.retrieve().contains(n) implies is_function(
                        g.nodes()[n].op,
                    ) || is_copy_from(g.nodes()[n].op) by {
                        assert(gb.retrieve().contains(n));
                        if ga.retrieve().contains(n) && (is_function(ga.nodes()[n].op)
                            || is_copy_from(ga.nodes()[n].op)) {
                            assert(ga.nodes().dom().contains(n)) by {
                                if g0.nodes().dom().contains(n) {
                                } else {
                                    assert(ga.retrieve().contains(n));
                                }
                            }
                            assert(gb.nodes()[n] == ga.nodes()[n]);
                            assert(g.nodes()[n].op == spec_subst(gb.nodes()[n].op));
                        } else {
                            assert(!ga.nodes().dom().contains(n) && is_copy_from(gb.nodes()[n].op));
                            assert(g.nodes()[n].op == spec_subst(gb.nodes()[n].op));
                        }
                    }
                    assert forall|n: usize| #[trigger] g.nodes().dom().contains(n) implies !is_host_compute(
                        g.nodes()[n].op,
                    ) by {
                        assert(gb.nodes().dom().contains(n));
                        if g0.nodes().dom().contains(n) {
                            assert(g.nodes()[n].op == spec_subst(g0.nodes()[n].op));
                        } else if ga.nodes().dom().contains(n) {
                            assert(gb.nodes()[n] == ga.nodes()[n] && is_copy_to(ga.nodes()[n].op));
                            assert(g.nodes()[n].op == spec_subst(gb.nodes()[n].op));
                        } else {
                            assert(is_copy_from(gb.nodes()[n].op));
                            assert(g.nodes()[n].op == spec_subst(gb.nodes()[n].op));
                        }
                    }
                }
                // P3.
                if forall|n: usize|
                    #[trigger] g0.retrieve().contains(n) ==> !is_function(g0.nodes()[n].op) {
                    assert forall|n: usize| #[trigger] g.retrieve().contains(n) implies g.nodes().dom().contains(
                        n,
                    ) && is_copy_from(g.nodes()[n].op) by {
                        assert(gb.retrieve().contains(n));
                        if ga.retrieve().contains(n) && (is_function(ga.nodes()[n].op)
                            || is_copy_from(ga.nodes()[n].op)) {
                            if g0.retrieve().contains(n) {
                                assert(g0.nodes().dom().contains(n));
                                assert(ga.nodes()[n] == g0.nodes()[n]);
                                assert(!is_function(g0.nodes()[n].op));
                                assert(is_host_compute(g0.nodes()[n].op));
                                assert(false);
                            } else {
                                assert(!g0.nodes().dom().contains(n) && is_copy_to(
                                    ga.nodes()[n].op,
                                ));
                                assert(false);
                            }
                        } else {
                            assert(!ga.nodes().dom().contains(n) && is_copy_from(gb.nodes()[n].op));
                            assert(gb.nodes().dom().contains(n));
                            assert(g.nodes()[n].op == spec_subst(gb.nodes()[n].op));
                        }
                    }
                }
            }
            // P8: idempotence.
            if optimized_form(g0) {
                assert(ga.nodes() == g0.nodes() && ga.edges() == g0.edges() && ga.retrieve()
                    == g0.retrieve() && ga.nodelete() == g0.nodelete() && ga.remap() == g0.remap())
                    by {
                    assert forall|f: usize|
                        #[trigger] g0.nodes().dom().contains(f) && is_function(g0.nodes()[f].op) implies !needs_copy(
                        g0,
                        f,
                    ) by {}
                }
                assert(gb.nodes() == ga.nodes() && gb.edges() == ga.edges() && gb.retrieve()
                    == ga.retrieve() && gb.nodelete() == ga.nodelete() && gb.remap() == ga.remap())
                    by {
                    assert forall|n: usize| #[trigger] ga.retrieve().contains(n) implies is_function(
                        ga.nodes()[n].op,
                    ) || is_copy_from(ga.nodes()[n].op) by {
                        assert(g0.retrieve().contains(n));
                    }
                }
                assert(g.nodes() == gb.nodes()) by {
                    assert forall|n: usize| #[trigger] gb.nodes().dom().contains(n) implies !is_host_compute(
                        gb.nodes()[n].op,
                    ) by {
                        assert(g0.nodes().dom().contains(n));
                    }
                }
            }
        }
    }
}

/// A Phase B outcome survives substitution: phase C keeps edges and the
/// bookkeeping, and maps the copy operator to itself; phase A had kept
/// the node's value.
proof fn lemma_moved_through(g0: Graph, ga: Graph, gb: Graph, gc: Graph, n: usize, d: usize)
    requires
        phase_b_moved(ga, gb, n, d),
        g0.nodes().dom().contains(n),
        ga.nodes().dom().contains(n),
        ga.nodes()[n] == g0.nodes()[n],
        forall|m: usize| #[trigger] g0.nodes().dom().contains(m) ==> ga.nodes().dom().contains(m),
        ga.nodelete() == g0.nodelete(),
        gc.nodes().dom() == gb.nodes().dom(),
        forall|m: usize|
            #[trigger] gb.nodes().dom().contains(m) ==> {
                let post = gc.nodes()[m];
                let pre = gb.nodes()[m];
                post.op == spec_subst(pre.op) && post.tensor_id == pre.tensor_id && post.dims
                    == pre.dims && post.fake == pre.fake
            },
        gc.edges() == gb.edges(),
        gc.retrieve() == gb.retrieve(),
        gc.nodelete() == gb.nodelete(),
        gc.remap() == gb.remap(),
    ensures
        phase_b_moved(g0, gc, n, d),
{
    reveal(phase_b_moved);
    assert(gb.nodes().dom().contains(d));
    assert(gc.nodes()[d].op == spec_subst(gb.nodes()[d].op));
    assert(!g0.nodes().dom().contains(d));
    let e = choose|e: usize|
        #[trigger] gb.edges().dom().contains(e) && gb.edges()[e] == (EdgeData {
            src: n,
            dst: d,
            weight: 0,
        });
    assert(gc.edges().dom().contains(e) && gc.edges()[e] == (EdgeData { src: n, dst: d, weight: 0 }));
    assert forall|e2: usize|
        #[trigger] gc.edges().dom().contains(e2) && gc.edges()[e2].dst == d implies gc.edges()[e2]
        == (EdgeData { src: n, dst: d, weight: 0 }) by {
        assert(gb.edges().dom().contains(e2) && gb.edges()[e2] == gc.edges()[e2]);
    }
}

/// Under a host-primitive-only graph every Function node needs its copy:
/// any consumer it has is a host node, never a copy.
proof fn lemma_host_only_needs_copy(g0: Graph, f: usize)
    requires
        g0.wf(),
        host_only(g0.nodes()),
        g0.nodes().dom().contains(f),
    ensures
        needs_copy(g0, f),
{
    if exists|e: usize| #[trigger] g0.edges().dom().contains(e) && g0.edges()[e].src == f {
        let e = choose|e: usize| #[trigger] g0.edges().dom().contains(e) && g0.edges()[e].src == f;
        assert(g0.nodes().dom().contains(g0.edges()[e].dst));
        assert(!is_copy_to(g0.nodes()[g0.edges()[e].dst].op));
    } else {
        assert forall|e: usize| #[trigger] g0.edges().dom().contains(e) implies g0.edges()[e].src
            != f by {}
    }
}

/// A rewired Function frontier survives the later phases: phase B adds
/// only edges with non-Function sources, and phase C keeps edges and the
/// copy operator.
proof fn lemma_copied_through(g0: Graph, ga: Graph, gb: Graph, gc: Graph, f: usize, c: usize, en: usize)
    requires
        copied_function_via(g0, ga, f, c, en),
        g0.nodes().dom().contains(f),
        is_function(g0.nodes()[f].op),
        // phase B facts
        forall|n: usize|
            #[trigger] ga.nodes().dom().contains(n) ==> gb.nodes().dom().contains(n)
                && gb.nodes()[n] == ga.nodes()[n],
        forall|e: usize|
            #[trigger] ga.edges().dom().contains(e) ==> gb.edges().dom().contains(e)
                && gb.edges()[e] == ga.edges()[e],
        forall|e: usize|
            #[trigger] gb.edges().dom().contains(e) && !ga.edges().dom().contains(e) ==> {
                let d = gb.edges()[e];
                ga.nodes().dom().contains(d.src) && !is_function(ga.nodes()[d.src].op)
            },
        forall|n: usize|
            #[trigger] g0.nodes().dom().contains(n) ==> ga.nodes().dom().contains(n)
                && ga.nodes()[n] == g0.nodes()[n],
        // phase C facts
        gc.nodes().dom() == gb.nodes().dom(),
        forall|n: usize|
            #[trigger] gb.nodes().dom().contains(n) ==> {
                let post = gc.nodes()[n];
                let pre = gb.nodes()[n];
                post.op == spec_subst(pre.op) && post.tensor_id == pre.tensor_id && post.dims
                    == pre.dims && post.fake == pre.fake
            },
        gc.edges() == gb.edges(),
    ensures
        copied_function_via(g0, gc, f, c, en),
{
    assert(gb.nodes().dom().contains(c) && gb.nodes()[c] == ga.nodes()[c]);
    assert(gc.nodes()[c].op == spec_subst(gb.nodes()[c].op));
    assert(gb.edges().dom().contains(en) && gb.edges()[en] == ga.edges()[en]);
    assert forall|e: usize|
        #[trigger] gc.edges().dom().contains(e) && gc.edges()[e].src == f implies e == en by {
        if ga.edges().dom().contains(e) {
            assert(gb.edges()[e] == ga.edges()[e]);
        } else {
            assert(gb.edges().dom().contains(e));
            let d = gb.edges()[e];
            assert(ga.nodes().dom().contains(d.src) && !is_function(ga.nodes()[d.src].op));
            assert(ga.nodes()[f] == g0.nodes()[f]);
            assert(false);
        }
    }
    assert forall|e: usize|
        #[trigger] g0.edges().dom().contains(e) && g0.edges()[e].src == f implies exists|e2: usize|
        #[trigger] gc.edges().dom().contains(e2) && gc.edges()[e2] == (EdgeData {
            src: c,
            dst: g0.edges()[e].dst,
            weight: g0.edges()[e].weight,
        }) by {
        let e2 = choose|e2: usize|
            #[trigger] ga.edges().dom().contains(e2) && ga.edges()[e2] == (EdgeData {
                src: c,
                dst: g0.edges()[e].dst,
                weight: g0.edges()[e].weight,
            });
        assert(gb.edges().dom().contains(e2) && gb.edges()[e2] == ga.edges()[e2]);
        assert(gc.edges().dom().contains(e2));
    }
}

} // verus!
