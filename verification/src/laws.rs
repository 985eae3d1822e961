//! The resolution laws: what the predicate table promises about winners,
//! exclusions, final markers, flag independence and determinism.

use vstd::prelude::*;

use crate::keys::KeyView;
use crate::resolve::chain_excluded;
use crate::resolve::chain_of;
use crate::resolve::chain_keys;
use crate::resolve::excl_upto;
use crate::resolve::fd_id;
use crate::resolve::fd_pred;
use crate::resolve::first_max;
use crate::resolve::FlagIdView;
use crate::resolve::flag_excluded;
use crate::resolve::flag_ids;
use crate::resolve::flag_keys;
use crate::resolve::flags_of;
use crate::resolve::kx_fn;
use crate::resolve::lemma_first_max;
use crate::resolve::lemma_firsts;
use crate::resolve::od_excl_fn;
use crate::resolve::od_key_fn;
use crate::resolve::od_pred;
use crate::resolve::spec_resolve;
use crate::resolve::sub_excl_upto;
use crate::resolve::sub_first_max;
use crate::resolve::subchain_excluded;
use crate::resolve::subchain_of;
use crate::resolve::sx_fn;
use crate::resolve::winner_priority;
use crate::resolve::PredicateTableView;
use crate::resolve::PredicateView;
use crate::scan::spec_extract;
use crate::scan::ExtractionView;
use crate::scan::FlagDeclView;
use crate::scan::OverrideDeclView;
use crate::scan::SourceItemView;

verus! {

broadcast use vstd::seq_lib::group_filter_ensures, Seq::lemma_filter_push, Seq::lemma_flatten_push;

proof fn lemma_concat_mem<A>(a: Seq<A>, b: Seq<A>, x: A)
    ensures
        (a + b).contains(x) <==> a.contains(x) || b.contains(x),
{
    if (a + b).contains(x) {
        let idx = choose|idx: int| 0 <= idx < (a + b).len() && (a + b)[idx] == x;
        if idx < a.len() {
            assert(a[idx] == x);
        } else {
            assert(b[idx - a.len()] == x);
        }
    }
    if a.contains(x) {
        let idx = choose|idx: int| 0 <= idx < a.len() && a[idx] == x;
        assert((a + b)[idx] == x);
    }
    if b.contains(x) {
        let idx = choose|idx: int| 0 <= idx < b.len() && b[idx] == x;
        assert((a + b)[a.len() + idx] == x);
    }
}

proof fn lemma_flatten_mem<A>(ss: Seq<Seq<A>>, x: A)
    ensures
        ss.flatten().contains(x) <==> exists|ci: int|
            0 <= ci < ss.len() && (#[trigger] ss[ci]).contains(x),
    decreases ss.len(),
{
    if ss.len() == 0 {
        assert(ss.flatten() =~= Seq::<A>::empty());
    } else {
        let pre = ss.drop_last();
        let last = ss.last();
        assert(pre.push(last) =~= ss);
        assert(ss.flatten() == pre.flatten() + last);
        lemma_flatten_mem(pre, x);
        lemma_concat_mem(pre.flatten(), last, x);
        if ss.flatten().contains(x) {
            if pre.flatten().contains(x) {
                let ci = choose|ci: int| 0 <= ci < pre.len() && (#[trigger] pre[ci]).contains(x);
                assert(ss[ci].contains(x));
            } else {
                assert(ss[ss.len() - 1].contains(x));
            }
        }
        if exists|ci: int| 0 <= ci < ss.len() && (#[trigger] ss[ci]).contains(x) {
            let ci = choose|ci: int| 0 <= ci < ss.len() && (#[trigger] ss[ci]).contains(x);
            if ci < ss.len() - 1 {
                assert(pre[ci].contains(x));
            } else {
                assert(last.contains(x));
            }
        }
    }
}

proof fn lemma_excl_upto_mem(c: Seq<OverrideDeclView>, w: int, n: int, x: PredicateView)
    requires
        0 <= n <= c.len(),
    ensures
        excl_upto(c, w, n).contains(x) <==> exists|j: int|
            0 <= j < n && j != w && od_pred(#[trigger] c[j]) == x,
    decreases n,
{
    if n > 0 {
        lemma_excl_upto_mem(c, w, n - 1, x);
        if excl_upto(c, w, n).contains(x) {
            if n - 1 != w && od_pred(c[n - 1]) == x {
            } else {
                assert(excl_upto(c, w, n - 1).contains(x));
            }
        }
        if exists|j: int| 0 <= j < n && j != w && od_pred(#[trigger] c[j]) == x {
            let j = choose|j: int| 0 <= j < n && j != w && od_pred(#[trigger] c[j]) == x;
            if j < n - 1 {
                assert(excl_upto(c, w, n - 1).contains(x));
                if n - 1 != w {
                    let idx = choose|idx: int|
                        0 <= idx < excl_upto(c, w, n - 1).len() && (#[trigger] excl_upto(
                            c,
                            w,
                            n - 1,
                        )[idx]) == x;
                    assert(excl_upto(c, w, n)[idx] == x);
                }
            } else {
                assert(excl_upto(c, w, n).last() == x);
            }
        }
    }
}

proof fn lemma_sub_excl_upto_mem(c: Seq<FlagDeclView>, w: int, n: int, x: PredicateView)
    requires
        0 <= n <= c.len(),
    ensures
        sub_excl_upto(c, w, n).contains(x) <==> exists|j: int|
            0 <= j < n && j != w && fd_pred(#[trigger] c[j]) == x,
    decreases n,
{
    if n > 0 {
        lemma_sub_excl_upto_mem(c, w, n - 1, x);
        if sub_excl_upto(c, w, n).contains(x) {
            if n - 1 != w && fd_pred(c[n - 1]) == x {
            } else {
                assert(sub_excl_upto(c, w, n - 1).contains(x));
            }
        }
        if exists|j: int| 0 <= j < n && j != w && fd_pred(#[trigger] c[j]) == x {
            let j = choose|j: int| 0 <= j < n && j != w && fd_pred(#[trigger] c[j]) == x;
            if j < n - 1 {
                assert(sub_excl_upto(c, w, n - 1).contains(x));
                if n - 1 != w {
                    let idx = choose|idx: int|
                        0 <= idx < sub_excl_upto(c, w, n - 1).len() && (#[trigger] sub_excl_upto(
                            c,
                            w,
                            n - 1,
                        )[idx]) == x;
                    assert(sub_excl_upto(c, w, n)[idx] == x);
                }
            } else {
                assert(sub_excl_upto(c, w, n).last() == x);
            }
        }
    }
}

proof fn lemma_chain_elem_key(s: Seq<OverrideDeclView>, k: KeyView, j: int)
    requires
        0 <= j < chain_of(s, k).len(),
    ensures
        chain_of(s, k)[j].key == k,
{
}

proof fn lemma_flag_excluded_some(fl: Seq<FlagDeclView>, x: PredicateView)
    requires
        flag_excluded(fl).contains(x),
    ensures
        x.flag is Some,
{
    let outer = flag_keys(fl).map_values(kx_fn(fl));
    lemma_flatten_mem(outer, x);
    let ci = choose|ci: int| 0 <= ci < outer.len() && (#[trigger] outer[ci]).contains(x);
    let kc = flags_of(fl, flag_keys(fl)[ci]);
    assert(outer[ci] == kx_fn(fl)(flag_keys(fl)[ci]));
    let inner = flag_ids(kc).map_values(sx_fn(kc));
    lemma_flatten_mem(inner, x);
    let ii = choose|ii: int| 0 <= ii < inner.len() && (#[trigger] inner[ii]).contains(x);
    assert(inner[ii] == sx_fn(kc)(flag_ids(kc)[ii]));
    let sub = subchain_of(kc, flag_ids(kc)[ii]);
    lemma_sub_excl_upto_mem(sub, sub_first_max(sub), sub.len() as int, x);
    let j = choose|j: int| 0 <= j < sub.len() && j != sub_first_max(sub) && fd_pred(
        #[trigger] sub[j],
    ) == x;
    assert(x == fd_pred(sub[j]));
}

/// Law: in a chain whose declarations carry strictly distinct priorities,
/// the first-highest-priority declaration is the one winner — every other
/// declaration ranks strictly below it and is marked excluded in the table,
/// and the winner itself is not excluded.
pub proof fn lemma_chain_winner(ex: ExtractionView, k: KeyView)
    requires
        chain_of(ex.overrides, k).len() > 0,
        forall|i: int, j: int|
            0 <= i < j < chain_of(ex.overrides, k).len() ==> (#[trigger] chain_of(
                ex.overrides,
                k,
            )[i]).priority != (#[trigger] chain_of(ex.overrides, k)[j]).priority,
    ensures
        ({
            let c = chain_of(ex.overrides, k);
            let w = first_max(c);
            &&& 0 <= w < c.len()
            &&& forall|j: int|
                0 <= j < c.len() && j != w ==> (#[trigger] c[j]).priority < c[w].priority
            &&& forall|j: int|
                0 <= j < c.len() && j != w ==> spec_resolve(ex).excluded.contains(
                    od_pred(#[trigger] c[j]),
                )
            &&& !spec_resolve(ex).excluded.contains(od_pred(c[w]))
        }),
{
    let s = ex.overrides;
    let c = chain_of(s, k);
    let w = first_max(c);
    lemma_first_max(c);
    assert forall|j: int| 0 <= j < c.len() && j != w implies (#[trigger] c[j]).priority
        < c[w].priority by {
        if j < w {
        } else {
            assert(c[w].priority != c[j].priority);
        }
    }
    lemma_firsts(s, od_key_fn());
    assert(chain_keys(s).contains(k)) by {
        if !chain_keys(s).contains(k) {
            assert(chain_of(s, k).len() == 0);
        }
    }
    let ci = choose|ci: int| 0 <= ci < chain_keys(s).len() && chain_keys(s)[ci] == k;
    let maps = chain_keys(s).map_values(od_excl_fn(s));
    assert(maps[ci] == od_excl_fn(s)(k));
    assert(od_excl_fn(s)(k) == chain_excluded(c));
    assert forall|j: int| 0 <= j < c.len() && j != w implies spec_resolve(ex).excluded.contains(
        od_pred(#[trigger] c[j]),
    ) by {
        lemma_excl_upto_mem(c, w, c.len() as int, od_pred(c[j]));
        assert(chain_excluded(c).contains(od_pred(c[j])));
        lemma_flatten_mem(maps, od_pred(c[j]));
        assert(maps.flatten().contains(od_pred(c[j])));
        lemma_concat_mem(maps.flatten(), flag_excluded(ex.flags), od_pred(c[j]));
    }
    assert(!spec_resolve(ex).excluded.contains(od_pred(c[w]))) by {
        lemma_concat_mem(maps.flatten(), flag_excluded(ex.flags), od_pred(c[w]));
        if flag_excluded(ex.flags).contains(od_pred(c[w])) {
            lemma_flag_excluded_some(ex.flags, od_pred(c[w]));
        }
        if maps.flatten().contains(od_pred(c[w])) {
            lemma_flatten_mem(maps, od_pred(c[w]));
            let cj = choose|cj: int|
                0 <= cj < maps.len() && (#[trigger] maps[cj]).contains(od_pred(c[w]));
            let kj = chain_keys(s)[cj];
            let cc = chain_of(s, kj);
            assert(maps[cj] == od_excl_fn(s)(kj));
            lemma_excl_upto_mem(cc, first_max(cc), cc.len() as int, od_pred(c[w]));
            let jj = choose|jj: int|
                0 <= jj < cc.len() && jj != first_max(cc) && od_pred(#[trigger] cc[jj]) == od_pred(
                    c[w],
                );
            assert(od_pred(cc[jj]) == od_pred(c[w]));
            lemma_chain_elem_key(s, kj, jj);
            lemma_chain_elem_key(s, k, w);
            assert(kj == k);
            assert(cc == c);
            assert(cc[jj].priority == c[w].priority);
            if jj < w {
                assert(c[jj].priority != c[w].priority);
            } else {
                assert(c[w].priority != c[jj].priority);
            }
        }
    }
}

/// Law: an identity key carrying exactly one declaration — the `default`,
/// priority 0 — and no competitors always wins and is never excluded.
pub proof fn lemma_lone_default(ex: ExtractionView, k: KeyView)
    requires
        chain_of(ex.overrides, k).len() == 1,
        chain_of(ex.overrides, k)[0].priority == 0,
    ensures
        first_max(chain_of(ex.overrides, k)) == 0,
        !spec_resolve(ex).excluded.contains(od_pred(chain_of(ex.overrides, k)[0])),
{
    lemma_chain_winner(ex, k);
}

/// Law: for a final marker on a key whose chain's current winner has
/// priority P, the table's required-priority entry for that key is exactly
/// P + 1. A final-marked declaration never competes in the chain — it never
/// compiles — so the marker is never the winner itself, and the rewriter
/// reports the break unconditionally.
pub proof fn lemma_final_requirement(ex: ExtractionView, i: int)
    requires
        0 <= i < ex.finals.len(),
        chain_of(ex.overrides, ex.finals[i]).len() > 0,
    ensures
        spec_resolve(ex).finals.len() == ex.finals.len(),
        spec_resolve(ex).finals[i].key == ex.finals[i],
        spec_resolve(ex).finals[i].required == winner_priority(ex.overrides, ex.finals[i]) + 1,
{
    lemma_first_max(chain_of(ex.overrides, ex.finals[i]));
}

/// Law: for a final marker on a key with no competing chain at all, the
/// table's required-priority entry is exactly 1, the implicit `default`
/// priority 0 plus one.
pub proof fn lemma_final_unchallenged(ex: ExtractionView, i: int)
    requires
        0 <= i < ex.finals.len(),
        chain_of(ex.overrides, ex.finals[i]).len() == 0,
    ensures
        spec_resolve(ex).finals.len() == ex.finals.len(),
        spec_resolve(ex).finals[i].key == ex.finals[i],
        spec_resolve(ex).finals[i].required == 1,
{
}

/// The flag declarations of one key and one flag identity, straight out of
/// the whole declaration list.
pub open spec fn kid_fn(k: KeyView, id: FlagIdView) -> spec_fn(FlagDeclView) -> bool {
    |d: FlagDeclView| d.key == k && fd_id(d) == id
}

/// The declarations gating (key, flag identity), in source order.
pub open spec fn decls_for(s: Seq<FlagDeclView>, k: KeyView, id: FlagIdView) -> Seq<
    FlagDeclView,
> {
    s.filter(kid_fn(k, id))
}

proof fn lemma_double_filter(s: Seq<FlagDeclView>, k: KeyView, id: FlagIdView)
    ensures
        subchain_of(flags_of(s, k), id) == decls_for(s, k, id),
    decreases s.len(),
{
    if s.len() == 0 {
        assert(flags_of(s, k).len() == 0);
        assert(subchain_of(flags_of(s, k), id).len() == 0);
        assert(decls_for(s, k, id).len() == 0);
        assert(subchain_of(flags_of(s, k), id) =~= decls_for(s, k, id));
    } else {
        let sp = s.drop_last();
        let last = s.last();
        lemma_double_filter(sp, k, id);
        assert(sp.push(last) =~= s);
        if last.key == k {
            assert(flags_of(s, k) == flags_of(sp, k).push(last));
            if fd_id(last) == id {
                assert(subchain_of(flags_of(s, k), id) == subchain_of(
                    flags_of(sp, k),
                    id,
                ).push(last));
                assert(decls_for(s, k, id) == decls_for(sp, k, id).push(last));
            } else {
                assert(subchain_of(flags_of(s, k), id) == subchain_of(flags_of(sp, k), id));
                assert(decls_for(s, k, id) == decls_for(sp, k, id));
            }
        } else {
            assert(flags_of(s, k) == flags_of(sp, k));
            assert(decls_for(s, k, id) == decls_for(sp, k, id));
        }
    }
}

/// Law: each flag sub-chain is resolved independently. The sub-chain of
/// (key, flag identity) is exactly the declarations gating that pair, so two
/// declaration lists that agree on them — however much they differ on other
/// flags or keys — get the same sub-chain, the same winner and the same
/// exclusions for that pair.
pub proof fn lemma_flag_chains_independent(
    a: Seq<FlagDeclView>,
    b: Seq<FlagDeclView>,
    k: KeyView,
    id: FlagIdView,
)
    requires
        decls_for(a, k, id) == decls_for(b, k, id),
    ensures
        subchain_of(flags_of(a, k), id) == subchain_of(flags_of(b, k), id),
        subchain_excluded(subchain_of(flags_of(a, k), id)) == subchain_excluded(
            subchain_of(flags_of(b, k), id),
        ),
        subchain_of(flags_of(a, k), id).len() > 0 ==> subchain_of(flags_of(a, k), id)[
            sub_first_max(subchain_of(flags_of(a, k), id))
        ] == subchain_of(flags_of(b, k), id)[sub_first_max(subchain_of(flags_of(b, k), id))],
{
    lemma_double_filter(a, k, id);
    lemma_double_filter(b, k, id);
}

/// Law: scanning a file set is deterministic. Any two predicate tables that
/// satisfy the scanner's contract for the same parsed item list are equal;
/// re-scanning an unchanged file set reproduces the table exactly.
pub proof fn lemma_rescan_deterministic(
    items: Seq<SourceItemView>,
    t1: PredicateTableView,
    t2: PredicateTableView,
)
    requires
        spec_extract(items) is Ok,
        t1 == spec_resolve(spec_extract(items).unwrap()),
        t2 == spec_resolve(spec_extract(items).unwrap()),
    ensures
        t1 == t2,
{
}

} // verus!
