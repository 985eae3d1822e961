//! The scanner's back half: grouping declarations into chains, selecting
//! each chain's winner, and emitting the compilation predicate table.
//!
//! A chain is the set of override declarations sharing one identity key; the
//! winner is the declaration with the numerically highest priority, the
//! earliest such declaration when several share it (two declarations of one
//! chain sharing a priority is an input the model does not promise anything
//! useful about). Flag declarations are partitioned first by identity key,
//! then by flag identity (name and invert bit), and each sub-chain is
//! resolved independently by the same rule.

use vstd::prelude::*;

use crate::keys::ItemKey;
use crate::keys::KeyView;
use crate::scan::flag_decl_views;
use crate::scan::key_views;
use crate::scan::odecl_views;
use crate::scan::Extraction;
use crate::scan::ExtractionView;
use crate::scan::FlagDecl;
use crate::scan::FlagDeclView;
use crate::scan::OverrideDecl;
use crate::scan::OverrideDeclView;
use crate::text::chars_eq;

verus! {

broadcast use vstd::seq_lib::group_filter_ensures, Seq::lemma_filter_push, Seq::lemma_flatten_push;

/// A flag identity: the flag's name and whether its runtime test is
/// inverted. Declarations gate the same sub-chain only when both agree.
#[derive(Debug)]
pub struct FlagId {
    pub name: Vec<char>,
    pub invert: bool,
}

/// The mathematical image of a `FlagId`.
pub ghost struct FlagIdView {
    pub name: Seq<char>,
    pub invert: bool,
}

impl View for FlagId {
    type V = FlagIdView;

    open spec fn view(&self) -> FlagIdView {
        FlagIdView { name: self.name@, invert: self.invert }
    }
}

/// One excluded candidate: the identity key, the flag identity for flag
/// candidates, and the candidate's priority. The scanner marks every
/// non-winning candidate excluded; winners get no entry.
#[derive(Debug)]
pub struct Predicate {
    pub key: ItemKey,
    pub flag: Option<FlagId>,
    pub priority: u32,
}

/// The mathematical image of a `Predicate`.
pub ghost struct PredicateView {
    pub key: KeyView,
    pub flag: Option<FlagIdView>,
    pub priority: u32,
}

impl View for Predicate {
    type V = PredicateView;

    open spec fn view(&self) -> PredicateView {
        PredicateView {
            key: self.key@,
            flag: match self.flag {
                Some(f) => Some(f@),
                None => None,
            },
            priority: self.priority,
        }
    }
}

/// The views of a sequence of predicates.
pub open spec fn pred_views(s: Seq<Predicate>) -> Seq<PredicateView> {
    s.map_values(|p: Predicate| p@)
}

/// The priority an `override_final` marker on this key would need in order
/// to dominate its chain; held as a `u64` so that one more than the largest
/// `u32` priority still fits.
#[derive(Debug)]
pub struct FinalEntry {
    pub key: ItemKey,
    pub required: u64,
}

/// The mathematical image of a `FinalEntry`.
pub ghost struct FinalEntryView {
    pub key: KeyView,
    pub required: u64,
}

impl View for FinalEntry {
    type V = FinalEntryView;

    open spec fn view(&self) -> FinalEntryView {
        FinalEntryView { key: self.key@, required: self.required }
    }
}

/// The views of a sequence of final entries.
pub open spec fn fentry_views(s: Seq<FinalEntry>) -> Seq<FinalEntryView> {
    s.map_values(|e: FinalEntry| e@)
}

/// The flag identities one item accepts, in source-scan order; the order of
/// this list is the order the item's dispatcher tests the flags in.
#[derive(Debug)]
pub struct AcceptEntry {
    pub key: ItemKey,
    pub flags: Vec<FlagId>,
}

/// The mathematical image of an `AcceptEntry`.
pub ghost struct AcceptEntryView {
    pub key: KeyView,
    pub flags: Seq<FlagIdView>,
}

/// The views of a sequence of flag identities.
pub open spec fn flag_id_views(s: Seq<FlagId>) -> Seq<FlagIdView> {
    s.map_values(|f: FlagId| f@)
}

impl View for AcceptEntry {
    type V = AcceptEntryView;

    open spec fn view(&self) -> AcceptEntryView {
        AcceptEntryView { key: self.key@, flags: flag_id_views(self.flags@) }
    }
}

/// The views of a sequence of accept entries.
pub open spec fn accept_views(s: Seq<AcceptEntry>) -> Seq<AcceptEntryView> {
    s.map_values(|e: AcceptEntry| e@)
}

/// The compilation predicate table: the scanner's whole output.
#[derive(Debug)]
pub struct PredicateTable {
    pub excluded: Vec<Predicate>,
    pub finals: Vec<FinalEntry>,
    pub accepts: Vec<AcceptEntry>,
}

/// The mathematical image of a `PredicateTable`.
pub ghost struct PredicateTableView {
    pub excluded: Seq<PredicateView>,
    pub finals: Seq<FinalEntryView>,
    pub accepts: Seq<AcceptEntryView>,
}

impl View for PredicateTable {
    type V = PredicateTableView;

    open spec fn view(&self) -> PredicateTableView {
        PredicateTableView {
            excluded: pred_views(self.excluded@),
            finals: fentry_views(self.finals@),
            accepts: accept_views(self.accepts@),
        }
    }
}

/// The distinct images of the elements of `s` under `proj`, in
/// first-occurrence order.
pub open spec fn firsts<T, K>(s: Seq<T>, proj: spec_fn(T) -> K) -> Seq<K>
    decreases s.len(),
{
    if s.len() == 0 {
        Seq::empty()
    } else {
        let rest = firsts(s.drop_last(), proj);
        if rest.contains(proj(s.last())) {
            rest
        } else {
            rest.push(proj(s.last()))
        }
    }
}

/// The elements of `s` whose image under `proj` is `k`, in order.
pub open spec fn group_of<T, K>(s: Seq<T>, proj: spec_fn(T) -> K, k: K) -> Seq<T> {
    s.filter(|x: T| proj(x) == k)
}

/// What grouping guarantees: every listed image has a non-empty group, an
/// unlisted image has an empty group, and the images are distinct.
pub proof fn lemma_firsts<T, K>(s: Seq<T>, proj: spec_fn(T) -> K)
    ensures
        forall|i: int|
            0 <= i < firsts(s, proj).len() ==> group_of(
                s,
                proj,
                #[trigger] firsts(s, proj)[i],
            ).len() > 0,
        forall|k: K| !firsts(s, proj).contains(k) ==> group_of(s, proj, k).len() == 0,
        forall|i: int, j: int|
            0 <= i < j < firsts(s, proj).len() ==> firsts(s, proj)[i] != firsts(s, proj)[j],
    decreases s.len(),
{
    if s.len() > 0 {
        let sp = s.drop_last();
        let last = s.last();
        lemma_firsts(sp, proj);
        assert(sp.push(last) =~= s);
        let pred = |x: T| proj(x) == proj(last);
        assert(group_of(s, proj, proj(last)) == sp.push(last).filter(pred));
        assert(sp.push(last).filter(pred) == sp.filter(pred).push(last));
        assert forall|k: K| k != proj(last) implies group_of(s, proj, k) == group_of(
            sp,
            proj,
            k,
        ) by {
            let predk = |x: T| proj(x) == k;
            assert(group_of(s, proj, k) == sp.push(last).filter(predk));
            assert(sp.push(last).filter(predk) == sp.filter(predk));
        }
        let fs = firsts(s, proj);
        let fsp = firsts(sp, proj);
        if fsp.contains(proj(last)) {
            assert(fs == fsp);
        } else {
            assert(fs == fsp.push(proj(last)));
            assert(forall|i: int| 0 <= i < fsp.len() ==> #[trigger] fs[i] == fsp[i]);
        }
        assert forall|k: K| !fs.contains(k) implies group_of(s, proj, k).len() == 0 by {
            if fsp.contains(proj(last)) {
                assert(k != proj(last));
            } else {
                assert(fs[fs.len() - 1] == proj(last));
                assert(fs.contains(proj(last)));
                assert(k != proj(last));
                if fsp.contains(k) {
                    let i = choose|i: int| 0 <= i < fsp.len() && fsp[i] == k;
                    assert(fs[i] == k);
                    assert(fs.contains(k));
                }
            }
            assert(!fsp.contains(k));
            assert(group_of(s, proj, k) == group_of(sp, proj, k));
        }
    }
}

/// The index of a chain's winner: the first declaration holding the
/// numerically highest priority.
pub open spec fn first_max(c: Seq<OverrideDeclView>) -> int
    decreases c.len(),
{
    if c.len() <= 1 {
        0
    } else {
        let r = first_max(c.drop_last());
        if c.last().priority > c[r].priority {
            c.len() - 1
        } else {
            r
        }
    }
}

/// The winner's index is in range, no declaration outranks it, and every
/// earlier declaration ranks strictly below it.
pub proof fn lemma_first_max(c: Seq<OverrideDeclView>)
    requires
        c.len() > 0,
    ensures
        0 <= first_max(c) < c.len(),
        forall|j: int| 0 <= j < c.len() ==> (#[trigger] c[j]).priority <= c[first_max(c)].priority,
        forall|j: int| 0 <= j < first_max(c) ==> (#[trigger] c[j]).priority < c[first_max(c)].priority,
    decreases c.len(),
{
    if c.len() > 1 {
        let cp = c.drop_last();
        lemma_first_max(cp);
        assert forall|j: int| 0 <= j < cp.len() implies #[trigger] cp[j] == c[j] by {}
        let r = first_max(cp);
        let w = first_max(c);
        if c.last().priority > cp[r].priority {
            assert(w == c.len() - 1);
            assert(c[w] == c.last());
            assert forall|j: int| 0 <= j < c.len() implies (#[trigger] c[j]).priority
                <= c[w].priority by {
                if j < c.len() - 1 {
                    assert(c[j] == cp[j]);
                    assert(cp[j].priority <= cp[r].priority);
                }
            }
            assert forall|j: int| 0 <= j < w implies (#[trigger] c[j]).priority
                < c[w].priority by {
                assert(cp[j].priority <= cp[r].priority);
            }
        } else {
            assert(w == r);
            assert(c[w] == cp[r]);
            assert forall|j: int| 0 <= j < c.len() implies (#[trigger] c[j]).priority
                <= c[w].priority by {
                if j < c.len() - 1 {
                    assert(cp[j].priority <= cp[r].priority);
                } else {
                    assert(c[j] == c.last());
                }
            }
            assert forall|j: int| 0 <= j < w implies (#[trigger] c[j]).priority
                < c[w].priority by {
                assert(cp[j].priority < cp[r].priority);
            }
        }
    }
}

/// The key projection of override declarations.
pub open spec fn od_key_fn() -> spec_fn(OverrideDeclView) -> KeyView {
    |d: OverrideDeclView| d.key
}

/// The identity keys of a declaration list, in first-occurrence order: one
/// per chain.
pub open spec fn chain_keys(s: Seq<OverrideDeclView>) -> Seq<KeyView> {
    firsts(s, od_key_fn())
}

/// The chain of an identity key: its declarations, in source order.
pub open spec fn chain_of(s: Seq<OverrideDeclView>, k: KeyView) -> Seq<OverrideDeclView> {
    group_of(s, od_key_fn(), k)
}

/// The flag identity of a flag declaration.
pub open spec fn fd_id(d: FlagDeclView) -> FlagIdView {
    FlagIdView { name: d.flag, invert: d.invert }
}

/// The key projection of flag declarations.
pub open spec fn fd_key_fn() -> spec_fn(FlagDeclView) -> KeyView {
    |d: FlagDeclView| d.key
}

/// The flag-identity projection of flag declarations.
pub open spec fn fd_id_fn() -> spec_fn(FlagDeclView) -> FlagIdView {
    |d: FlagDeclView| fd_id(d)
}

/// The identity keys of a flag declaration list, in first-occurrence order.
pub open spec fn flag_keys(s: Seq<FlagDeclView>) -> Seq<KeyView> {
    firsts(s, fd_key_fn())
}

/// The flag declarations of one identity key, in source order.
pub open spec fn flags_of(s: Seq<FlagDeclView>, k: KeyView) -> Seq<FlagDeclView> {
    group_of(s, fd_key_fn(), k)
}

/// The flag identities of a flag declaration list, in first-occurrence
/// order.
pub open spec fn flag_ids(s: Seq<FlagDeclView>) -> Seq<FlagIdView> {
    firsts(s, fd_id_fn())
}

/// The sub-chain of one flag identity, in source order.
pub open spec fn subchain_of(s: Seq<FlagDeclView>, id: FlagIdView) -> Seq<FlagDeclView> {
    group_of(s, fd_id_fn(), id)
}

/// The winner of a sub-chain, by the same first-highest-priority rule as
/// `first_max`.
pub open spec fn sub_first_max(c: Seq<FlagDeclView>) -> int
    decreases c.len(),
{
    if c.len() <= 1 {
        0
    } else {
        let r = sub_first_max(c.drop_last());
        if c.last().priority > c[r].priority {
            c.len() - 1
        } else {
            r
        }
    }
}

/// The sub-chain winner's index is in range, no declaration outranks it, and
/// every earlier declaration ranks strictly below it.
pub proof fn lemma_sub_first_max(c: Seq<FlagDeclView>)
    requires
        c.len() > 0,
    ensures
        0 <= sub_first_max(c) < c.len(),
        forall|j: int|
            0 <= j < c.len() ==> (#[trigger] c[j]).priority <= c[sub_first_max(c)].priority,
        forall|j: int|
            0 <= j < sub_first_max(c) ==> (#[trigger] c[j]).priority < c[sub_first_max(c)].priority,
    decreases c.len(),
{
    if c.len() > 1 {
        let cp = c.drop_last();
        lemma_sub_first_max(cp);
        assert forall|j: int| 0 <= j < cp.len() implies #[trigger] cp[j] == c[j] by {}
        let r = sub_first_max(cp);
        let w = sub_first_max(c);
        if c.last().priority > cp[r].priority {
            assert(w == c.len() - 1);
            assert(c[w] == c.last());
            assert forall|j: int| 0 <= j < c.len() implies (#[trigger] c[j]).priority
                <= c[w].priority by {
                if j < c.len() - 1 {
                    assert(c[j] == cp[j]);
                    assert(cp[j].priority <= cp[r].priority);
                }
            }
            assert forall|j: int| 0 <= j < w implies (#[trigger] c[j]).priority
                < c[w].priority by {
                assert(cp[j].priority <= cp[r].priority);
            }
        } else {
            assert(w == r);
            assert(c[w] == cp[r]);
            assert forall|j: int| 0 <= j < c.len() implies (#[trigger] c[j]).priority
                <= c[w].priority by {
                if j < c.len() - 1 {
                    assert(cp[j].priority <= cp[r].priority);
                } else {
                    assert(c[j] == c.last());
                }
            }
            assert forall|j: int| 0 <= j < w implies (#[trigger] c[j]).priority
                < c[w].priority by {
                assert(cp[j].priority < cp[r].priority);
            }
        }
    }
}

/// The exclusion predicate of a non-winning override declaration.
pub open spec fn od_pred(d: OverrideDeclView) -> PredicateView {
    PredicateView { key: d.key, flag: None, priority: d.priority }
}

/// The exclusion predicate of a non-winning flag declaration.
pub open spec fn fd_pred(d: FlagDeclView) -> PredicateView {
    PredicateView { key: d.key, flag: Some(fd_id(d)), priority: d.priority }
}

/// The exclusion predicates of the first `j` declarations of a chain whose
/// winner sits at index `w`: every one of them except the winner.
pub open spec fn excl_upto(c: Seq<OverrideDeclView>, w: int, j: int) -> Seq<PredicateView>
    decreases j,
{
    if j <= 0 {
        Seq::empty()
    } else {
        let rest = excl_upto(c, w, j - 1);
        if j - 1 == w {
            rest
        } else {
            rest.push(od_pred(c[j - 1]))
        }
    }
}

/// The exclusion predicates of a whole chain.
pub open spec fn chain_excluded(c: Seq<OverrideDeclView>) -> Seq<PredicateView> {
    excl_upto(c, first_max(c), c.len() as int)
}

/// The exclusion predicates of the first `j` declarations of a sub-chain
/// whose winner sits at index `w`.
pub open spec fn sub_excl_upto(c: Seq<FlagDeclView>, w: int, j: int) -> Seq<PredicateView>
    decreases j,
{
    if j <= 0 {
        Seq::empty()
    } else {
        let rest = sub_excl_upto(c, w, j - 1);
        if j - 1 == w {
            rest
        } else {
            rest.push(fd_pred(c[j - 1]))
        }
    }
}

/// The exclusion predicates of a whole sub-chain.
pub open spec fn subchain_excluded(c: Seq<FlagDeclView>) -> Seq<PredicateView> {
    sub_excl_upto(c, sub_first_max(c), c.len() as int)
}

/// The per-key exclusion map over override chains.
pub open spec fn od_excl_fn(s: Seq<OverrideDeclView>) -> spec_fn(KeyView) -> Seq<PredicateView> {
    |k: KeyView| chain_excluded(chain_of(s, k))
}

/// The exclusion predicates of every override chain, chain by chain in
/// first-occurrence key order.
pub open spec fn override_excluded(s: Seq<OverrideDeclView>) -> Seq<PredicateView> {
    chain_keys(s).map_values(od_excl_fn(s)).flatten()
}

/// The per-identity exclusion map over the sub-chains of one key's flag
/// declarations.
pub open spec fn sx_fn(kc: Seq<FlagDeclView>) -> spec_fn(FlagIdView) -> Seq<PredicateView> {
    |id: FlagIdView| subchain_excluded(subchain_of(kc, id))
}

/// The exclusion predicates of one key's flag declarations, sub-chain by
/// sub-chain in first-occurrence flag order.
pub open spec fn key_flag_excluded(kc: Seq<FlagDeclView>) -> Seq<PredicateView> {
    flag_ids(kc).map_values(sx_fn(kc)).flatten()
}

/// The per-key exclusion map over flag declarations.
pub open spec fn kx_fn(s: Seq<FlagDeclView>) -> spec_fn(KeyView) -> Seq<PredicateView> {
    |k: KeyView| key_flag_excluded(flags_of(s, k))
}

/// The exclusion predicates of every flag sub-chain, key by key in
/// first-occurrence order.
pub open spec fn flag_excluded(s: Seq<FlagDeclView>) -> Seq<PredicateView> {
    flag_keys(s).map_values(kx_fn(s)).flatten()
}

/// The priority of a chain's winner.
pub open spec fn winner_priority(s: Seq<OverrideDeclView>, k: KeyView) -> u32 {
    let c = chain_of(s, k);
    c[first_max(c)].priority
}

/// The priority an `override_final` marker on key `k` needs to dominate: one
/// more than the winner of `k`'s chain, or 1 when no chain competes (the
/// implicit `default` priority 0, plus one).
pub open spec fn spec_required(s: Seq<OverrideDeclView>, k: KeyView) -> u64 {
    if chain_of(s, k).len() > 0 {
        (winner_priority(s, k) + 1) as u64
    } else {
        1u64
    }
}

/// The final-entry map over final-marker keys.
pub open spec fn fin_fn(s: Seq<OverrideDeclView>) -> spec_fn(KeyView) -> FinalEntryView {
    |k: KeyView| FinalEntryView { key: k, required: spec_required(s, k) }
}

/// The required-priority entries: one per final marker, in source order.
pub open spec fn spec_finals(ov: Seq<OverrideDeclView>, fins: Seq<KeyView>) -> Seq<
    FinalEntryView,
> {
    fins.map_values(fin_fn(ov))
}

/// The accept-entry map over identity keys.
pub open spec fn acc_fn(s: Seq<FlagDeclView>) -> spec_fn(KeyView) -> AcceptEntryView {
    |k: KeyView| AcceptEntryView { key: k, flags: flag_ids(flags_of(s, k)) }
}

/// The accepted flag identities of every flagged item, in first-occurrence
/// order on both levels.
pub open spec fn spec_accepts(s: Seq<FlagDeclView>) -> Seq<AcceptEntryView> {
    flag_keys(s).map_values(acc_fn(s))
}

/// The whole predicate table of an extraction: override exclusions followed
/// by flag exclusions, the required priority of every final marker, and the
/// accepted flags of every flagged item.
pub open spec fn spec_resolve(ex: ExtractionView) -> PredicateTableView {
    PredicateTableView {
        excluded: override_excluded(ex.overrides) + flag_excluded(ex.flags),
        finals: spec_finals(ex.overrides, ex.finals),
        accepts: spec_accepts(ex.flags),
    }
}

/// The views of a sequence of override chains.
pub open spec fn chain_views(cs: Seq<Vec<OverrideDecl>>) -> Seq<Seq<OverrideDeclView>> {
    cs.map_values(|c: Vec<OverrideDecl>| odecl_views(c@))
}

/// The views of a sequence of flag-declaration groups.
pub open spec fn fgroup_views(cs: Seq<Vec<FlagDecl>>) -> Seq<Seq<FlagDeclView>> {
    cs.map_values(|c: Vec<FlagDecl>| flag_decl_views(c@))
}

/// Finds the chain whose declarations carry the key `k`.
fn find_chain(chains: &Vec<Vec<OverrideDecl>>, k: &ItemKey) -> (r: Option<usize>)
    requires
        forall|ci: int| 0 <= ci < chains@.len() ==> (#[trigger] chains@[ci]@).len() > 0,
    ensures
        match r {
            Some(pi) => pi < chains@.len() && chains@[pi as int]@[0]@.key == k@,
            None => forall|ci: int|
                0 <= ci < chains@.len() ==> (#[trigger] chains@[ci]@)[0]@.key != k@,
        },
{
    let mut ci: usize = 0;
    while ci < chains.len()
        invariant
            ci <= chains@.len(),
            forall|cj: int| 0 <= cj < chains@.len() ==> (#[trigger] chains@[cj]@).len() > 0,
            forall|cj: int| 0 <= cj < ci ==> (#[trigger] chains@[cj]@)[0]@.key != k@,
        decreases chains@.len() - ci,
    {
        if chains[ci][0].key.key_eq(k) {
            return Some(ci);
        }
        ci += 1;
    }
    None
}

/// Groups override declarations into chains: one chain per identity key, in
/// first-occurrence order, each chain holding its key's declarations in
/// source order.
fn group_overrides(decls: &Vec<OverrideDecl>) -> (chains: Vec<Vec<OverrideDecl>>)
    ensures
        chain_views(chains@).len() == chain_keys(odecl_views(decls@)).len(),
        forall|ci: int|
            0 <= ci < chain_views(chains@).len() ==> #[trigger] chain_views(chains@)[ci]
                == chain_of(odecl_views(decls@), chain_keys(odecl_views(decls@))[ci]),
        forall|ci: int|
            0 <= ci < chains@.len() ==> (#[trigger] chains@[ci]@).len() > 0 && chains@[ci]@[0]@.key
                == chain_keys(odecl_views(decls@))[ci],
{
    let ghost gov = odecl_views(decls@);
    let mut chains: Vec<Vec<OverrideDecl>> = Vec::new();
    let mut i: usize = 0;
    proof {
        assert(gov.take(0) =~= Seq::<OverrideDeclView>::empty());
        assert(chain_views(chains@) =~= Seq::<Seq<OverrideDeclView>>::empty());
    }
    while i < decls.len()
        invariant
            i <= decls@.len(),
            gov == odecl_views(decls@),
            chain_views(chains@).len() == chain_keys(gov.take(i as int)).len(),
            forall|ci: int|
                0 <= ci < chain_views(chains@).len() ==> #[trigger] chain_views(chains@)[ci]
                    == chain_of(gov.take(i as int), chain_keys(gov.take(i as int))[ci]),
            forall|ci: int|
                0 <= ci < chains@.len() ==> (#[trigger] chains@[ci]@).len() > 0
                    && chains@[ci]@[0]@.key == chain_keys(gov.take(i as int))[ci],
        decreases decls@.len() - i,
    {
        let ghost p = gov.take(i as int);
        let ghost keysp = chain_keys(p);
        let ghost gd = gov[i as int];
        let d = &decls[i];
        proof {
            assert(gd == decls@[i as int]@);
            assert(gov.take(i + 1) =~= p.push(gd));
            lemma_firsts(p, od_key_fn());
            assert(od_key_fn()(gd) == gd.key);
            assert(p.push(gd).drop_last() =~= p);
            assert(p.push(gd).last() == gd);
        }
        let nd = OverrideDecl { key: d.key.duplicate(), priority: d.priority };
        match find_chain(&chains, &d.key) {
            Some(pi) => {
                proof {
                    assert(keysp[pi as int] == gd.key);
                    assert(keysp.contains(gd.key));
                    assert(chain_keys(p.push(gd)) == keysp);
                }
                let ghost prevchains = chains@;
                chains[pi].push(nd);
                proof {
                    assert(chains@ =~= prevchains.update(pi as int, chains@[pi as int]));
                    assert(odecl_views(chains@[pi as int]@) =~= odecl_views(
                        prevchains[pi as int]@,
                    ).push(gd));
                    assert(chain_views(chains@) =~= chain_views(prevchains).update(
                        pi as int,
                        odecl_views(prevchains[pi as int]@).push(gd),
                    ));
                    assert forall|ci: int| 0 <= ci < keysp.len() implies #[trigger] chain_of(
                        p.push(gd),
                        keysp[ci],
                    ) == if keysp[ci] == gd.key {
                        chain_of(p, keysp[ci]).push(gd)
                    } else {
                        chain_of(p, keysp[ci])
                    } by {
                        let predk = |x: OverrideDeclView| od_key_fn()(x) == keysp[ci];
                        assert(chain_of(p.push(gd), keysp[ci]) == p.push(gd).filter(predk));
                    }
                    assert forall|ci: int|
                        0 <= ci < keysp.len() && ci != pi implies keysp[ci] != gd.key by {}
                    assert forall|ci: int|
                        0 <= ci < chain_views(chains@).len() implies #[trigger] chain_views(
                        chains@,
                    )[ci] == chain_of(p.push(gd), keysp[ci]) by {
                        if ci == pi as int {
                            assert(chain_views(chains@)[ci] == odecl_views(
                                prevchains[pi as int]@,
                            ).push(gd));
                            assert(chain_views(prevchains)[ci] == chain_of(p, keysp[ci]));
                            assert(chain_views(prevchains)[ci] == odecl_views(
                                prevchains[pi as int]@,
                            ));
                            assert(keysp[ci] == gd.key);
                        } else {
                            assert(chain_views(chains@)[ci] == chain_views(prevchains)[ci]);
                            assert(keysp[ci] != gd.key);
                        }
                    }
                    assert(chain_keys(gov.take(i + 1)) == keysp);
                }
            },
            None => {
                proof {
                    assert(!keysp.contains(gd.key)) by {
                        if keysp.contains(gd.key) {
                            let ci = choose|ci: int|
                                0 <= ci < keysp.len() && keysp[ci] == gd.key;
                            assert(chains@[ci]@[0]@.key == keysp[ci]);
                        }
                    }
                    assert(chain_keys(p.push(gd)) == keysp.push(gd.key));
                    assert(chain_of(p, gd.key).len() == 0);
                }
                let mut nc: Vec<OverrideDecl> = Vec::new();
                nc.push(nd);
                let ghost prevchains = chains@;
                chains.push(nc);
                proof {
                    assert(chains@ =~= prevchains.push(chains@.last()));
                    assert(odecl_views(chains@.last()@) =~= seq![gd]);
                    assert(chain_views(chains@) =~= chain_views(prevchains).push(seq![gd]));
                    assert forall|ci: int| 0 <= ci < keysp.len() implies #[trigger] chain_of(
                        p.push(gd),
                        keysp[ci],
                    ) == chain_of(p, keysp[ci]) by {
                        let predk = |x: OverrideDeclView| od_key_fn()(x) == keysp[ci];
                        assert(chain_of(p.push(gd), keysp[ci]) == p.push(gd).filter(predk));
                        assert(keysp[ci] != gd.key);
                    }
                    assert(chain_of(p.push(gd), gd.key) =~= chain_of(p, gd.key).push(gd));
                    assert(chain_of(p, gd.key).push(gd) =~= seq![gd]);
                    let ghost keysn = chain_keys(p.push(gd));
                    assert(keysn == keysp.push(gd.key));
                    assert forall|ci: int|
                        0 <= ci < chain_views(chains@).len() implies #[trigger] chain_views(
                        chains@,
                    )[ci] == chain_of(p.push(gd), keysn[ci]) by {
                        if ci < keysp.len() {
                            assert(chain_views(chains@)[ci] == chain_views(prevchains)[ci]);
                            assert(keysn[ci] == keysp[ci]);
                            if keysp[ci] == gd.key {
                                assert(keysp.contains(gd.key));
                            }
                            assert(keysp[ci] != gd.key);
                        } else {
                            assert(ci == keysp.len());
                            assert(keysn[ci] == gd.key);
                            assert(chain_views(chains@)[ci] == odecl_views(chains@.last()@));
                        }
                    }
                }
            },
        }
        i += 1;
    }
    proof {
        assert(gov.take(gov.len() as int) =~= gov);
    }
    chains
}

/// The index of a chain's winner: the first declaration of numerically
/// highest priority.
fn winner_index(c: &Vec<OverrideDecl>) -> (w: usize)
    requires
        c@.len() > 0,
    ensures
        w as int == first_max(odecl_views(c@)),
{
    let ghost gc = odecl_views(c@);
    let mut w: usize = 0;
    let mut j: usize = 1;
    proof {
        assert(gc.take(1) =~= seq![gc[0]]);
    }
    while j < c.len()
        invariant
            gc == odecl_views(c@),
            1 <= j <= gc.len() || (gc.len() == 0 && j == 1),
            (w as int) < (j as int),
            gc.len() > 0 ==> w as int == first_max(gc.take(j as int)),
        decreases c@.len() - j,
    {
        proof {
            assert(gc.take(j + 1).drop_last() =~= gc.take(j as int));
            assert(gc.take(j + 1).last() == gc[j as int]);
            assert(gc.take(j + 1)[w as int] == gc[w as int]);
        }
        if c[j].priority > c[w].priority {
            w = j;
        }
        j += 1;
    }
    proof {
        assert(gc.take(gc.len() as int) =~= gc);
    }
    w
}

/// Finds the flag-declaration group whose declarations carry the key `k`.
fn find_fgroup_by_key(groups: &Vec<Vec<FlagDecl>>, k: &ItemKey) -> (r: Option<usize>)
    requires
        forall|ci: int| 0 <= ci < groups@.len() ==> (#[trigger] groups@[ci]@).len() > 0,
    ensures
        match r {
            Some(pi) => pi < groups@.len() && groups@[pi as int]@[0]@.key == k@,
            None => forall|ci: int|
                0 <= ci < groups@.len() ==> (#[trigger] groups@[ci]@)[0]@.key != k@,
        },
{
    let mut ci: usize = 0;
    while ci < groups.len()
        invariant
            ci <= groups@.len(),
            forall|cj: int| 0 <= cj < groups@.len() ==> (#[trigger] groups@[cj]@).len() > 0,
            forall|cj: int| 0 <= cj < ci ==> (#[trigger] groups@[cj]@)[0]@.key != k@,
        decreases groups@.len() - ci,
    {
        if groups[ci][0].key.key_eq(k) {
            return Some(ci);
        }
        ci += 1;
    }
    None
}

/// Finds the sub-chain whose declarations carry the given flag identity.
fn find_fgroup_by_id(groups: &Vec<Vec<FlagDecl>>, flag: &Vec<char>, invert: bool) -> (r: Option<
    usize,
>)
    requires
        forall|ci: int| 0 <= ci < groups@.len() ==> (#[trigger] groups@[ci]@).len() > 0,
    ensures
        match r {
            Some(pi) => pi < groups@.len() && fd_id(groups@[pi as int]@[0]@) == (FlagIdView {
                name: flag@,
                invert,
            }),
            None => forall|ci: int|
                0 <= ci < groups@.len() ==> fd_id((#[trigger] groups@[ci]@)[0]@) != (FlagIdView {
                    name: flag@,
                    invert,
                }),
        },
{
    let mut ci: usize = 0;
    while ci < groups.len()
        invariant
            ci <= groups@.len(),
            forall|cj: int| 0 <= cj < groups@.len() ==> (#[trigger] groups@[cj]@).len() > 0,
            forall|cj: int|
                0 <= cj < ci ==> fd_id((#[trigger] groups@[cj]@)[0]@) != (FlagIdView {
                    name: flag@,
                    invert,
                }),
        decreases groups@.len() - ci,
    {
        let head = &groups[ci][0];
        if head.invert == invert && chars_eq(&head.flag, flag) {
            return Some(ci);
        }
        ci += 1;
    }
    None
}

/// Groups flag declarations by identity key: one group per key, in
/// first-occurrence order, each group holding its key's declarations in
/// source order.
fn group_flags_by_key(decls: &Vec<FlagDecl>) -> (groups: Vec<Vec<FlagDecl>>)
    ensures
        fgroup_views(groups@).len() == flag_keys(flag_decl_views(decls@)).len(),
        forall|ci: int|
            0 <= ci < fgroup_views(groups@).len() ==> #[trigger] fgroup_views(groups@)[ci]
                == flags_of(flag_decl_views(decls@), flag_keys(flag_decl_views(decls@))[ci]),
        forall|ci: int|
            0 <= ci < groups@.len() ==> (#[trigger] groups@[ci]@).len() > 0 && groups@[ci]@[0]@.key
                == flag_keys(flag_decl_views(decls@))[ci],
{
    let ghost gfl = flag_decl_views(decls@);
    let mut groups: Vec<Vec<FlagDecl>> = Vec::new();
    let mut i: usize = 0;
    proof {
        assert(gfl.take(0) =~= Seq::<FlagDeclView>::empty());
        assert(fgroup_views(groups@) =~= Seq::<Seq<FlagDeclView>>::empty());
    }
    while i < decls.len()
        invariant
            i <= decls@.len(),
            gfl == flag_decl_views(decls@),
            fgroup_views(groups@).len() == flag_keys(gfl.take(i as int)).len(),
            forall|ci: int|
                0 <= ci < fgroup_views(groups@).len() ==> #[trigger] fgroup_views(groups@)[ci]
                    == flags_of(gfl.take(i as int), flag_keys(gfl.take(i as int))[ci]),
            forall|ci: int|
                0 <= ci < groups@.len() ==> (#[trigger] groups@[ci]@).len() > 0
                    && groups@[ci]@[0]@.key == flag_keys(gfl.take(i as int))[ci],
        decreases decls@.len() - i,
    {
        let ghost p = gfl.take(i as int);
        let ghost keysp = flag_keys(p);
        let ghost gd = gfl[i as int];
        let d = &decls[i];
        proof {
            assert(gd == decls@[i as int]@);
            assert(gfl.take(i + 1) =~= p.push(gd));
            lemma_firsts(p, fd_key_fn());
            assert(fd_key_fn()(gd) == gd.key);
            assert(p.push(gd).drop_last() =~= p);
            assert(p.push(gd).last() == gd);
        }
        let nd = FlagDecl {
            key: d.key.duplicate(),
            flag: d.flag.clone(),
            invert: d.invert,
            priority: d.priority,
        };
        match find_fgroup_by_key(&groups, &d.key) {
            Some(pi) => {
                proof {
                    assert(keysp[pi as int] == gd.key);
                    assert(keysp.contains(gd.key));
                    assert(flag_keys(p.push(gd)) == keysp);
                }
                let ghost prevgroups = groups@;
                groups[pi].push(nd);
                proof {
                    assert(groups@ =~= prevgroups.update(pi as int, groups@[pi as int]));
                    assert(flag_decl_views(groups@[pi as int]@) =~= flag_decl_views(
                        prevgroups[pi as int]@,
                    ).push(gd));
                    assert(fgroup_views(groups@) =~= fgroup_views(prevgroups).update(
                        pi as int,
                        flag_decl_views(prevgroups[pi as int]@).push(gd),
                    ));
                    assert forall|ci: int| 0 <= ci < keysp.len() implies #[trigger] flags_of(
                        p.push(gd),
                        keysp[ci],
                    ) == if keysp[ci] == gd.key {
                        flags_of(p, keysp[ci]).push(gd)
                    } else {
                        flags_of(p, keysp[ci])
                    } by {}
                    assert forall|ci: int|
                        0 <= ci < keysp.len() && ci != pi implies keysp[ci] != gd.key by {}
                    assert forall|ci: int|
                        0 <= ci < fgroup_views(groups@).len() implies #[trigger] fgroup_views(
                        groups@,
                    )[ci] == flags_of(p.push(gd), keysp[ci]) by {
                        if ci == pi as int {
                            assert(fgroup_views(groups@)[ci] == flag_decl_views(
                                prevgroups[pi as int]@,
                            ).push(gd));
                            assert(fgroup_views(prevgroups)[ci] == flags_of(p, keysp[ci]));
                            assert(fgroup_views(prevgroups)[ci] == flag_decl_views(
                                prevgroups[pi as int]@,
                            ));
                            assert(keysp[ci] == gd.key);
                        } else {
                            assert(fgroup_views(groups@)[ci] == fgroup_views(prevgroups)[ci]);
                            assert(keysp[ci] != gd.key);
                        }
                    }
                    assert(flag_keys(gfl.take(i + 1)) == keysp);
                }
            },
            None => {
                proof {
                    assert(!keysp.contains(gd.key)) by {
                        if keysp.contains(gd.key) {
                            let ci = choose|ci: int|
                                0 <= ci < keysp.len() && keysp[ci] == gd.key;
                            assert(groups@[ci]@[0]@.key == keysp[ci]);
                        }
                    }
                    assert(flag_keys(p.push(gd)) == keysp.push(gd.key));
                    assert(flags_of(p, gd.key).len() == 0);
                }
                let mut nc: Vec<FlagDecl> = Vec::new();
                nc.push(nd);
                let ghost prevgroups = groups@;
                groups.push(nc);
                proof {
                    assert(groups@ =~= prevgroups.push(groups@.last()));
                    assert(flag_decl_views(groups@.last()@) =~= seq![gd]);
                    assert(fgroup_views(groups@) =~= fgroup_views(prevgroups).push(seq![gd]));
                    assert(flags_of(p.push(gd), gd.key) =~= flags_of(p, gd.key).push(gd));
                    assert(flags_of(p, gd.key).push(gd) =~= seq![gd]);
                    let ghost keysn = flag_keys(p.push(gd));
                    assert(keysn == keysp.push(gd.key));
                    assert forall|ci: int|
                        0 <= ci < fgroup_views(groups@).len() implies #[trigger] fgroup_views(
                        groups@,
                    )[ci] == flags_of(p.push(gd), keysn[ci]) by {
                        if ci < keysp.len() {
                            assert(fgroup_views(groups@)[ci] == fgroup_views(prevgroups)[ci]);
                            assert(keysn[ci] == keysp[ci]);
                            if keysp[ci] == gd.key {
                                assert(keysp.contains(gd.key));
                            }
                            assert(keysp[ci] != gd.key);
                        } else {
                            assert(ci == keysp.len());
                            assert(keysn[ci] == gd.key);
                            assert(fgroup_views(groups@)[ci] == flag_decl_views(
                                groups@.last()@,
                            ));
                        }
                    }
                }
            },
        }
        i += 1;
    }
    proof {
        assert(gfl.take(gfl.len() as int) =~= gfl);
    }
    groups
}

/// Groups one key's flag declarations by flag identity: one sub-chain per
/// identity, in first-occurrence order, each holding its declarations in
/// source order.
fn group_flags_by_id(decls: &Vec<FlagDecl>) -> (groups: Vec<Vec<FlagDecl>>)
    ensures
        fgroup_views(groups@).len() == flag_ids(flag_decl_views(decls@)).len(),
        forall|ci: int|
            0 <= ci < fgroup_views(groups@).len() ==> #[trigger] fgroup_views(groups@)[ci]
                == subchain_of(flag_decl_views(decls@), flag_ids(flag_decl_views(decls@))[ci]),
        forall|ci: int|
            0 <= ci < groups@.len() ==> (#[trigger] groups@[ci]@).len() > 0 && fd_id(
                groups@[ci]@[0]@,
            ) == flag_ids(flag_decl_views(decls@))[ci],
{
    let ghost gfl = flag_decl_views(decls@);
    let mut groups: Vec<Vec<FlagDecl>> = Vec::new();
    let mut i: usize = 0;
    proof {
        assert(gfl.take(0) =~= Seq::<FlagDeclView>::empty());
        assert(fgroup_views(groups@) =~= Seq::<Seq<FlagDeclView>>::empty());
    }
    while i < decls.len()
        invariant
            i <= decls@.len(),
            gfl == flag_decl_views(decls@),
            fgroup_views(groups@).len() == flag_ids(gfl.take(i as int)).len(),
            forall|ci: int|
                0 <= ci < fgroup_views(groups@).len() ==> #[trigger] fgroup_views(groups@)[ci]
                    == subchain_of(gfl.take(i as int), flag_ids(gfl.take(i as int))[ci]),
            forall|ci: int|
                0 <= ci < groups@.len() ==> (#[trigger] groups@[ci]@).len() > 0 && fd_id(
                    groups@[ci]@[0]@,
                ) == flag_ids(gfl.take(i as int))[ci],
        decreases decls@.len() - i,
    {
        let ghost p = gfl.take(i as int);
        let ghost idsp = flag_ids(p);
        let ghost gd = gfl[i as int];
        let d = &decls[i];
        proof {
            assert(gd == decls@[i as int]@);
            assert(gfl.take(i + 1) =~= p.push(gd));
            lemma_firsts(p, fd_id_fn());
            assert(fd_id_fn()(gd) == fd_id(gd));
            assert(p.push(gd).drop_last() =~= p);
            assert(p.push(gd).last() == gd);
        }
        let nd = FlagDecl {
            key: d.key.duplicate(),
            flag: d.flag.clone(),
            invert: d.invert,
            priority: d.priority,
        };
        match find_fgroup_by_id(&groups, &d.flag, d.invert) {
            Some(pi) => {
                proof {
                    assert(idsp[pi as int] == fd_id(gd));
                    assert(idsp.contains(fd_id(gd)));
                    assert(flag_ids(p.push(gd)) == idsp);
                }
                let ghost prevgroups = groups@;
                groups[pi].push(nd);
                proof {
                    assert(groups@ =~= prevgroups.update(pi as int, groups@[pi as int]));
                    assert(flag_decl_views(groups@[pi as int]@) =~= flag_decl_views(
                        prevgroups[pi as int]@,
                    ).push(gd));
                    assert(fgroup_views(groups@) =~= fgroup_views(prevgroups).update(
                        pi as int,
                        flag_decl_views(prevgroups[pi as int]@).push(gd),
                    ));
                    assert forall|ci: int| 0 <= ci < idsp.len() implies #[trigger] subchain_of(
                        p.push(gd),
                        idsp[ci],
                    ) == if idsp[ci] == fd_id(gd) {
                        subchain_of(p, idsp[ci]).push(gd)
                    } else {
                        subchain_of(p, idsp[ci])
                    } by {}
                    assert forall|ci: int|
                        0 <= ci < idsp.len() && ci != pi implies idsp[ci] != fd_id(gd) by {}
                    assert forall|ci: int|
                        0 <= ci < fgroup_views(groups@).len() implies #[trigger] fgroup_views(
                        groups@,
                    )[ci] == subchain_of(p.push(gd), idsp[ci]) by {
                        if ci == pi as int {
                            assert(fgroup_views(groups@)[ci] == flag_decl_views(
                                prevgroups[pi as int]@,
                            ).push(gd));
                            assert(fgroup_views(prevgroups)[ci] == subchain_of(p, idsp[ci]));
                            assert(fgroup_views(prevgroups)[ci] == flag_decl_views(
                                prevgroups[pi as int]@,
                            ));
                            assert(idsp[ci] == fd_id(gd));
                        } else {
                            assert(fgroup_views(groups@)[ci] == fgroup_views(prevgroups)[ci]);
                            assert(idsp[ci] != fd_id(gd));
                        }
                    }
                    assert(flag_ids(gfl.take(i + 1)) == idsp);
                }
            },
            None => {
                proof {
                    assert(!idsp.contains(fd_id(gd))) by {
                        if idsp.contains(fd_id(gd)) {
                            let ci = choose|ci: int|
                                0 <= ci < idsp.len() && idsp[ci] == fd_id(gd);
                            assert(fd_id(groups@[ci]@[0]@) == idsp[ci]);
                        }
                    }
                    assert(flag_ids(p.push(gd)) == idsp.push(fd_id(gd)));
                    assert(subchain_of(p, fd_id(gd)).len() == 0);
                }
                let mut nc: Vec<FlagDecl> = Vec::new();
                nc.push(nd);
                let ghost prevgroups = groups@;
                groups.push(nc);
                proof {
                    assert(groups@ =~= prevgroups.push(groups@.last()));
                    assert(flag_decl_views(groups@.last()@) =~= seq![gd]);
                    assert(fgroup_views(groups@) =~= fgroup_views(prevgroups).push(seq![gd]));
                    assert(subchain_of(p.push(gd), fd_id(gd)) =~= subchain_of(
                        p,
                        fd_id(gd),
                    ).push(gd));
                    assert(subchain_of(p, fd_id(gd)).push(gd) =~= seq![gd]);
                    let ghost idsn = flag_ids(p.push(gd));
                    assert(idsn == idsp.push(fd_id(gd)));
                    assert forall|ci: int|
                        0 <= ci < fgroup_views(groups@).len() implies #[trigger] fgroup_views(
                        groups@,
                    )[ci] == subchain_of(p.push(gd), idsn[ci]) by {
                        if ci < idsp.len() {
                            assert(fgroup_views(groups@)[ci] == fgroup_views(prevgroups)[ci]);
                            assert(idsn[ci] == idsp[ci]);
                            if idsp[ci] == fd_id(gd) {
                                assert(idsp.contains(fd_id(gd)));
                            }
                            assert(idsp[ci] != fd_id(gd));
                        } else {
                            assert(ci == idsp.len());
                            assert(idsn[ci] == fd_id(gd));
                            assert(fgroup_views(groups@)[ci] == flag_decl_views(
                                groups@.last()@,
                            ));
                        }
                    }
                }
            },
        }
        i += 1;
    }
    proof {
        assert(gfl.take(gfl.len() as int) =~= gfl);
    }
    groups
}

/// The index of a sub-chain's winner: the first declaration of numerically
/// highest priority.
fn sub_winner_index(c: &Vec<FlagDecl>) -> (w: usize)
    requires
        c@.len() > 0,
    ensures
        w as int == sub_first_max(flag_decl_views(c@)),
{
    let ghost gc = flag_decl_views(c@);
    let mut w: usize = 0;
    let mut j: usize = 1;
    proof {
        assert(gc.take(1) =~= seq![gc[0]]);
    }
    while j < c.len()
        invariant
            gc == flag_decl_views(c@),
            1 <= j <= gc.len() || (gc.len() == 0 && j == 1),
            (w as int) < (j as int),
            gc.len() > 0 ==> w as int == sub_first_max(gc.take(j as int)),
        decreases c@.len() - j,
    {
        proof {
            assert(gc.take(j + 1).drop_last() =~= gc.take(j as int));
            assert(gc.take(j + 1).last() == gc[j as int]);
            assert(gc.take(j + 1)[w as int] == gc[w as int]);
        }
        if c[j].priority > c[w].priority {
            w = j;
        }
        j += 1;
    }
    proof {
        assert(gc.take(gc.len() as int) =~= gc);
    }
    w
}

/// Resolves an extraction into the full predicate table: every non-winning
/// candidate of every chain and sub-chain marked excluded, the priority each
/// final marker needs to dominate, and each flagged item's accepted flags in
/// dispatch order.
pub fn resolve(ex: &Extraction) -> (t: PredicateTable)
    ensures
        t@ == spec_resolve(ex@),
{
    let ghost gov = odecl_views(ex.overrides@);
    let ghost gfl = flag_decl_views(ex.flags@);
    let ghost gfins = key_views(ex.finals@);

    let chains = group_overrides(&ex.overrides);
    let ghost keys = chain_keys(gov);

    let mut excluded: Vec<Predicate> = Vec::new();
    let mut ci: usize = 0;
    proof {
        assert(pred_views(excluded@) =~= Seq::<PredicateView>::empty());
        assert(keys.take(0) =~= Seq::<KeyView>::empty());
        assert(keys.take(0).map_values(od_excl_fn(gov)) =~= Seq::<Seq<PredicateView>>::empty());
        assert(Seq::<Seq<PredicateView>>::empty().flatten() =~= Seq::<PredicateView>::empty());
    }
    while ci < chains.len()
        invariant
            ci <= chains@.len(),
            gov == odecl_views(ex.overrides@),
            keys == chain_keys(gov),
            chains@.len() == keys.len(),
            forall|cj: int|
                0 <= cj < chains@.len() ==> #[trigger] chain_views(chains@)[cj] == chain_of(
                    gov,
                    keys[cj],
                ),
            forall|cj: int| 0 <= cj < chains@.len() ==> (#[trigger] chains@[cj]@).len() > 0,
            pred_views(excluded@) == keys.take(ci as int).map_values(od_excl_fn(gov)).flatten(),
        decreases chains@.len() - ci,
    {
        let chain = &chains[ci];
        let ghost cv = chain_views(chains@)[ci as int];
        proof {
            assert(cv == chain_of(gov, keys[ci as int]));
            assert(cv == odecl_views(chain@));
        }
        let w = winner_index(chain);
        let ghost gw = first_max(cv);
        let ghost base = pred_views(excluded@);
        let mut j: usize = 0;
        proof {
            assert(base + excl_upto(cv, gw, 0) =~= base);
        }
        while j < chain.len()
            invariant
                j <= chain@.len(),
                cv == odecl_views(chain@),
                w as int == gw,
                gw == first_max(cv),
                pred_views(excluded@) == base + excl_upto(cv, gw, j as int),
            decreases chain@.len() - j,
        {
            if j != w {
                let ghost prev = excluded@;
                excluded.push(
                    Predicate {
                        key: chain[j].key.duplicate(),
                        flag: None,
                        priority: chain[j].priority,
                    },
                );
                proof {
                    assert(pred_views(excluded@) =~= pred_views(prev).push(excluded@.last()@));
                    assert(excluded@.last()@ == od_pred(cv[j as int]));
                    assert(excl_upto(cv, gw, j + 1) == excl_upto(cv, gw, j as int).push(
                        od_pred(cv[j as int]),
                    ));
                    assert(base + excl_upto(cv, gw, j + 1) =~= (base + excl_upto(
                        cv,
                        gw,
                        j as int,
                    )).push(od_pred(cv[j as int])));
                }
            } else {
                proof {
                    assert(excl_upto(cv, gw, j + 1) == excl_upto(cv, gw, j as int));
                }
            }
            j += 1;
        }
        proof {
            assert(pred_views(excluded@) == base + chain_excluded(cv));
            assert(od_excl_fn(gov)(keys[ci as int]) == chain_excluded(cv));
            assert(keys.take(ci + 1) =~= keys.take(ci as int).push(keys[ci as int]));
            assert(keys.take(ci + 1).map_values(od_excl_fn(gov)) =~= keys.take(
                ci as int,
            ).map_values(od_excl_fn(gov)).push(chain_excluded(cv)));
            assert(keys.take(ci + 1).map_values(od_excl_fn(gov)).flatten() =~= keys.take(
                ci as int,
            ).map_values(od_excl_fn(gov)).flatten() + chain_excluded(cv));
            assert(pred_views(excluded@) =~= keys.take(ci + 1).map_values(
                od_excl_fn(gov),
            ).flatten());
        }
        ci += 1;
    }
    proof {
        assert(keys.take(keys.len() as int) =~= keys);
        assert(pred_views(excluded@) == override_excluded(gov));
    }
    let ghost oex = pred_views(excluded@);

    let kgroups = group_flags_by_key(&ex.flags);
    let ghost fkeys = flag_keys(gfl);
    let mut accepts: Vec<AcceptEntry> = Vec::new();
    let mut ki: usize = 0;
    proof {
        assert(fkeys.take(0) =~= Seq::<KeyView>::empty());
        assert(fkeys.take(0).map_values(kx_fn(gfl)) =~= Seq::<Seq<PredicateView>>::empty());
        assert(Seq::<Seq<PredicateView>>::empty().flatten() =~= Seq::<PredicateView>::empty());
        assert(oex + Seq::<PredicateView>::empty() =~= oex);
        assert(accept_views(accepts@) =~= Seq::<AcceptEntryView>::empty());
        assert(fkeys.take(0).map_values(acc_fn(gfl)) =~= Seq::<AcceptEntryView>::empty());
    }
    while ki < kgroups.len()
        invariant
            ki <= kgroups@.len(),
            gfl == flag_decl_views(ex.flags@),
            fkeys == flag_keys(gfl),
            kgroups@.len() == fkeys.len(),
            forall|cj: int|
                0 <= cj < kgroups@.len() ==> #[trigger] fgroup_views(kgroups@)[cj] == flags_of(
                    gfl,
                    fkeys[cj],
                ),
            forall|cj: int|
                0 <= cj < kgroups@.len() ==> (#[trigger] kgroups@[cj]@).len() > 0
                    && kgroups@[cj]@[0]@.key == fkeys[cj],
            pred_views(excluded@) == oex + fkeys.take(ki as int).map_values(kx_fn(gfl)).flatten(),
            accept_views(accepts@) == fkeys.take(ki as int).map_values(acc_fn(gfl)),
        decreases kgroups@.len() - ki,
    {
        let kg = &kgroups[ki];
        let ghost kgv = fgroup_views(kgroups@)[ki as int];
        proof {
            assert(kgv == flags_of(gfl, fkeys[ki as int]));
            assert(kgv == flag_decl_views(kg@));
            assert(kg@.len() > 0);
        }
        let igroups = group_flags_by_id(kg);
        let ghost ids = flag_ids(kgv);

        let mut fl_ids: Vec<FlagId> = Vec::new();
        let mut ii: usize = 0;
        proof {
            assert(flag_id_views(fl_ids@) =~= Seq::<FlagIdView>::empty());
            assert(ids.take(0) =~= Seq::<FlagIdView>::empty());
        }
        while ii < igroups.len()
            invariant
                ii <= igroups@.len(),
                kgv == flag_decl_views(kg@),
                ids == flag_ids(kgv),
                igroups@.len() == ids.len(),
                forall|cj: int|
                    0 <= cj < igroups@.len() ==> (#[trigger] igroups@[cj]@).len() > 0 && fd_id(
                        igroups@[cj]@[0]@,
                    ) == ids[cj],
                flag_id_views(fl_ids@) == ids.take(ii as int),
            decreases igroups@.len() - ii,
        {
            let ghost prev = fl_ids@;
            let head = &igroups[ii][0];
            fl_ids.push(FlagId { name: head.flag.clone(), invert: head.invert });
            proof {
                assert(flag_id_views(fl_ids@) =~= flag_id_views(prev).push(fl_ids@.last()@));
                assert(fl_ids@.last()@ == fd_id(igroups@[ii as int]@[0]@));
                assert(ids.take(ii + 1) =~= ids.take(ii as int).push(ids[ii as int]));
            }
            ii += 1;
        }
        proof {
            assert(ids.take(ids.len() as int) =~= ids);
        }
        let ghost prevacc = accepts@;
        accepts.push(AcceptEntry { key: kg[0].key.duplicate(), flags: fl_ids });
        proof {
            assert(accept_views(accepts@) =~= accept_views(prevacc).push(accepts@.last()@));
            assert(kg@[0]@.key == fkeys[ki as int]);
            assert(accepts@.last()@ == acc_fn(gfl)(fkeys[ki as int]));
            assert(fkeys.take(ki + 1) =~= fkeys.take(ki as int).push(fkeys[ki as int]));
            assert(fkeys.take(ki + 1).map_values(acc_fn(gfl)) =~= fkeys.take(
                ki as int,
            ).map_values(acc_fn(gfl)).push(acc_fn(gfl)(fkeys[ki as int])));
        }

        let ghost kbase = pred_views(excluded@);
        let mut ii2: usize = 0;
        proof {
            assert(ids.take(0) =~= Seq::<FlagIdView>::empty());
            assert(ids.take(0).map_values(sx_fn(kgv)) =~= Seq::<Seq<PredicateView>>::empty());
            assert(Seq::<Seq<PredicateView>>::empty().flatten() =~= Seq::<PredicateView>::empty());
            assert(kbase + Seq::<PredicateView>::empty() =~= kbase);
        }
        while ii2 < igroups.len()
            invariant
                ii2 <= igroups@.len(),
                kgv == flag_decl_views(kg@),
                ids == flag_ids(kgv),
                igroups@.len() == ids.len(),
                forall|cj: int|
                    0 <= cj < igroups@.len() ==> #[trigger] fgroup_views(igroups@)[cj]
                        == subchain_of(kgv, ids[cj]),
                forall|cj: int| 0 <= cj < igroups@.len() ==> (#[trigger] igroups@[cj]@).len() > 0,
                pred_views(excluded@) == kbase + ids.take(ii2 as int).map_values(
                    sx_fn(kgv),
                ).flatten(),
            decreases igroups@.len() - ii2,
        {
            let sub = &igroups[ii2];
            let ghost sv = fgroup_views(igroups@)[ii2 as int];
            proof {
                assert(sv == subchain_of(kgv, ids[ii2 as int]));
                assert(sv == flag_decl_views(sub@));
            }
            let w = sub_winner_index(sub);
            let ghost gw = sub_first_max(sv);
            let ghost base = pred_views(excluded@);
            let mut jj: usize = 0;
            proof {
                assert(base + sub_excl_upto(sv, gw, 0) =~= base);
            }
            while jj < sub.len()
                invariant
                    jj <= sub@.len(),
                    sv == flag_decl_views(sub@),
                    w as int == gw,
                    gw == sub_first_max(sv),
                    pred_views(excluded@) == base + sub_excl_upto(sv, gw, jj as int),
                decreases sub@.len() - jj,
            {
                if jj != w {
                    let ghost prev = excluded@;
                    excluded.push(
                        Predicate {
                            key: sub[jj].key.duplicate(),
                            flag: Some(
                                FlagId { name: sub[jj].flag.clone(), invert: sub[jj].invert },
                            ),
                            priority: sub[jj].priority,
                        },
                    );
                    proof {
                        assert(pred_views(excluded@) =~= pred_views(prev).push(
                            excluded@.last()@,
                        ));
                        assert(excluded@.last()@ == fd_pred(sv[jj as int]));
                        assert(sub_excl_upto(sv, gw, jj + 1) == sub_excl_upto(
                            sv,
                            gw,
                            jj as int,
                        ).push(fd_pred(sv[jj as int])));
                        assert(base + sub_excl_upto(sv, gw, jj + 1) =~= (base + sub_excl_upto(
                            sv,
                            gw,
                            jj as int,
                        )).push(fd_pred(sv[jj as int])));
                    }
                } else {
                    proof {
                        assert(sub_excl_upto(sv, gw, jj + 1) == sub_excl_upto(sv, gw, jj as int));
                    }
                }
                jj += 1;
            }
            proof {
                assert(pred_views(excluded@) == base + subchain_excluded(sv));
                assert(sx_fn(kgv)(ids[ii2 as int]) == subchain_excluded(sv));
                assert(ids.take(ii2 + 1) =~= ids.take(ii2 as int).push(ids[ii2 as int]));
                assert(ids.take(ii2 + 1).map_values(sx_fn(kgv)) =~= ids.take(
                    ii2 as int,
                ).map_values(sx_fn(kgv)).push(subchain_excluded(sv)));
                assert(ids.take(ii2 + 1).map_values(sx_fn(kgv)).flatten() =~= ids.take(
                    ii2 as int,
                ).map_values(sx_fn(kgv)).flatten() + subchain_excluded(sv));
                assert(pred_views(excluded@) =~= kbase + ids.take(ii2 + 1).map_values(
                    sx_fn(kgv),
                ).flatten());
            }
            ii2 += 1;
        }
        proof {
            assert(ids.take(ids.len() as int) =~= ids);
            assert(pred_views(excluded@) == kbase + key_flag_excluded(kgv));
            assert(kx_fn(gfl)(fkeys[ki as int]) == key_flag_excluded(kgv));
            assert(fkeys.take(ki + 1) =~= fkeys.take(ki as int).push(fkeys[ki as int]));
            assert(fkeys.take(ki + 1).map_values(kx_fn(gfl)) =~= fkeys.take(
                ki as int,
            ).map_values(kx_fn(gfl)).push(key_flag_excluded(kgv)));
            assert(fkeys.take(ki + 1).map_values(kx_fn(gfl)).flatten() =~= fkeys.take(
                ki as int,
            ).map_values(kx_fn(gfl)).flatten() + key_flag_excluded(kgv));
            assert(pred_views(excluded@) =~= oex + fkeys.take(ki + 1).map_values(
                kx_fn(gfl),
            ).flatten());
        }
        ki += 1;
    }
    proof {
        assert(fkeys.take(fkeys.len() as int) =~= fkeys);
        assert(pred_views(excluded@) == override_excluded(gov) + flag_excluded(gfl));
        assert(accept_views(accepts@) == spec_accepts(gfl));
    }

    let mut finals: Vec<FinalEntry> = Vec::new();
    let mut fi: usize = 0;
    proof {
        assert(fentry_views(finals@) =~= Seq::<FinalEntryView>::empty());
        assert(gfins.take(0) =~= Seq::<KeyView>::empty());
        assert(gfins.take(0).map_values(fin_fn(gov)) =~= Seq::<FinalEntryView>::empty());
    }
    while fi < ex.finals.len()
        invariant
            fi <= ex.finals@.len(),
            gov == odecl_views(ex.overrides@),
            gfins == key_views(ex.finals@),
            keys == chain_keys(gov),
            chains@.len() == keys.len(),
            forall|cj: int|
                0 <= cj < chains@.len() ==> #[trigger] chain_views(chains@)[cj] == chain_of(
                    gov,
                    keys[cj],
                ),
            forall|cj: int|
                0 <= cj < chains@.len() ==> (#[trigger] chains@[cj]@).len() > 0
                    && chains@[cj]@[0]@.key == keys[cj],
            fentry_views(finals@) == gfins.take(fi as int).map_values(fin_fn(gov)),
        decreases ex.finals@.len() - fi,
    {
        let fk = &ex.finals[fi];
        let ghost gfk = gfins[fi as int];
        proof {
            assert(gfk == ex.finals@[fi as int]@);
        }
        let required: u64 = match find_chain(&chains, fk) {
            Some(pi) => {
                let cref = &chains[pi];
                let w = winner_index(cref);
                proof {
                    assert(chains@[pi as int]@[0]@.key == gfk);
                    assert(chains@[pi as int]@[0]@.key == keys[pi as int]);
                    assert(chain_views(chains@)[pi as int] == chain_of(gov, keys[pi as int]));
                    assert(chain_views(chains@)[pi as int] == odecl_views(cref@));
                    assert(chain_of(gov, gfk).len() > 0);
                    lemma_first_max(odecl_views(cref@));
                    assert(winner_priority(gov, gfk) == odecl_views(cref@)[w as int].priority);
                    assert(odecl_views(cref@)[w as int].priority == cref@[w as int]@.priority);
                }
                cref[w].priority as u64 + 1
            },
            None => {
                proof {
                    lemma_firsts(gov, od_key_fn());
                    assert(!keys.contains(gfk)) by {
                        if keys.contains(gfk) {
                            let ciw = choose|ciw: int| 0 <= ciw < keys.len() && keys[ciw] == gfk;
                            assert(chains@[ciw]@[0]@.key == keys[ciw]);
                        }
                    }
                    assert(chain_of(gov, gfk).len() == 0);
                }
                1
            },
        };
        let ghost prevfin = finals@;
        finals.push(FinalEntry { key: fk.duplicate(), required });
        proof {
            assert(fentry_views(finals@) =~= fentry_views(prevfin).push(finals@.last()@));
            assert(finals@.last()@ == fin_fn(gov)(gfk));
            assert(gfins.take(fi + 1) =~= gfins.take(fi as int).push(gfk));
            assert(gfins.take(fi + 1).map_values(fin_fn(gov)) =~= gfins.take(
                fi as int,
            ).map_values(fin_fn(gov)).push(fin_fn(gov)(gfk)));
        }
        fi += 1;
    }
    proof {
        assert(gfins.take(gfins.len() as int) =~= gfins);
        assert(fentry_views(finals@) == spec_finals(gov, gfins));
    }

    let t = PredicateTable { excluded, finals, accepts };
    proof {
        assert(t@.excluded == spec_resolve(ex@).excluded);
        assert(t@.finals == spec_resolve(ex@).finals);
        assert(t@.accepts == spec_resolve(ex@).accepts);
    }
    t
}

impl FlagId {
    /// Structural equality of two flag identities.
    pub fn id_eq(&self, other: &FlagId) -> (r: bool)
        ensures
            r == (self@ == other@),
    {
        self.invert == other.invert && chars_eq(&self.name, &other.name)
    }
}

impl Predicate {
    /// Structural equality of two exclusion predicates.
    pub fn pred_eq(&self, other: &Predicate) -> (r: bool)
        ensures
            r == (self@ == other@),
    {
        if self.priority != other.priority {
            return false;
        }
        if !self.key.key_eq(&other.key) {
            return false;
        }
        match (&self.flag, &other.flag) {
            (None, None) => true,
            (Some(a), Some(b)) => a.id_eq(b),
            _ => false,
        }
    }
}

/// Whether the table marks this candidate excluded: the compilation gate a
/// tagged candidate is tested against.
pub fn is_excluded(table: &PredicateTable, p: &Predicate) -> (r: bool)
    ensures
        r == table@.excluded.contains(p@),
{
    let mut i: usize = 0;
    while i < table.excluded.len()
        invariant
            i <= table.excluded@.len(),
            forall|j: int| 0 <= j < i ==> (#[trigger] table.excluded@[j])@ != p@,
        decreases table.excluded@.len() - i,
    {
        if table.excluded[i].pred_eq(p) {
            proof {
                assert(table@.excluded[i as int] == p@);
            }
            return true;
        }
        i += 1;
    }
    proof {
        if table@.excluded.contains(p@) {
            let j = choose|j: int|
                0 <= j < table@.excluded.len() && table@.excluded[j] == p@;
            assert(table.excluded@[j]@ == p@);
        }
    }
    false
}

} // verus!
