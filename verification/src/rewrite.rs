//! The attribute rewriter's decisions, as plain data: which conditional-
//! compilation tag each candidate gets, whether a flag dispatcher is
//! synthesized and in which order it tests the flags, which renames a flag
//! variant gets, and what an `override_final` marker reports.
//!
//! Impl blocks yield one decision per contained method or constant;
//! `override_final` combines every member's report instead of stopping at
//! the first.

use vstd::prelude::*;

use crate::args::parse_flag_args;
use crate::args::parse_no_args;
use crate::args::parse_priority_args;
use crate::args::spec_flag_args;
use crate::args::spec_priority_args;
use crate::args::FlagArgsView;
use crate::keys::ItemKey;
use crate::keys::KeyView;
use crate::resolve::flag_id_views;
use crate::resolve::AcceptEntryView;
use crate::resolve::FinalEntryView;
use crate::resolve::FlagId;
use crate::resolve::FlagIdView;
use crate::resolve::PredicateTable;
use crate::resolve::PredicateTableView;
use crate::scan::flag_decl_views;
use crate::scan::make_member_key;
use crate::scan::member_views;
use crate::scan::spec_member_key;
use crate::scan::FlagDecl;
use crate::scan::FlagDeclView;
use crate::scan::ImplMemberView;
use crate::scan::MemberKind;
use crate::scan::SourceItem;
use crate::scan::SourceItemView;
use crate::text::trim;
use crate::OverrideError;

verus! {

/// The required priority stored for `k`, if the scanner recorded one: the
/// first matching entry decides.
pub open spec fn find_required(fs: Seq<FinalEntryView>, k: KeyView) -> Option<u64>
    decreases fs.len(),
{
    if fs.len() == 0 {
        None
    } else if fs[0].key == k {
        Some(fs[0].required)
    } else {
        find_required(fs.drop_first(), k)
    }
}

/// The accepted flag identities stored for `k`, if the scanner recorded any:
/// the first matching entry decides.
pub open spec fn find_accept(acc: Seq<AcceptEntryView>, k: KeyView) -> Option<Seq<FlagIdView>>
    decreases acc.len(),
{
    if acc.len() == 0 {
        None
    } else if acc[0].key == k {
        Some(acc[0].flags)
    } else {
        find_accept(acc.drop_first(), k)
    }
}

/// Looks up the required priority the scanner stored for a final marker.
pub fn required_of(table: &PredicateTable, k: &ItemKey) -> (r: Option<u64>)
    ensures
        r == find_required(table@.finals, k@),
{
    let ghost gfs = table@.finals;
    let mut i: usize = 0;
    proof {
        assert(gfs.skip(0) =~= gfs);
    }
    while i < table.finals.len()
        invariant
            i <= table.finals@.len(),
            gfs == table@.finals,
            find_required(gfs, k@) == find_required(gfs.skip(i as int), k@),
        decreases table.finals@.len() - i,
    {
        let ghost rem = gfs.skip(i as int);
        proof {
            assert(rem[0] == gfs[i as int]);
            assert(gfs[i as int] == table.finals@[i as int]@);
            assert(rem.drop_first() =~= gfs.skip(i + 1));
        }
        if table.finals[i].key.key_eq(k) {
            return Some(table.finals[i].required);
        }
        i += 1;
    }
    proof {
        assert(gfs.skip(gfs.len() as int) =~= Seq::<FinalEntryView>::empty());
    }
    None
}

/// Looks up the accepted flags the scanner stored for an item.
pub fn accepts_of(table: &PredicateTable, k: &ItemKey) -> (r: Option<Vec<FlagId>>)
    ensures
        match r {
            Some(ids) => find_accept(table@.accepts, k@) == Some(flag_id_views(ids@)),
            None => find_accept(table@.accepts, k@) is None,
        },
{
    let ghost gac = table@.accepts;
    let mut i: usize = 0;
    proof {
        assert(gac.skip(0) =~= gac);
    }
    while i < table.accepts.len()
        invariant
            i <= table.accepts@.len(),
            gac == table@.accepts,
            find_accept(gac, k@) == find_accept(gac.skip(i as int), k@),
        decreases table.accepts@.len() - i,
    {
        let ghost rem = gac.skip(i as int);
        proof {
            assert(rem[0] == gac[i as int]);
            assert(gac[i as int] == table.accepts@[i as int]@);
            assert(rem.drop_first() =~= gac.skip(i + 1));
        }
        if table.accepts[i].key.key_eq(k) {
            let entry = &table.accepts[i];
            let mut out: Vec<FlagId> = Vec::new();
            let mut j: usize = 0;
            proof {
                assert(flag_id_views(out@) =~= Seq::<FlagIdView>::empty());
                assert(flag_id_views(entry.flags@).take(0) =~= Seq::<FlagIdView>::empty());
            }
            while j < entry.flags.len()
                invariant
                    j <= entry.flags@.len(),
                    flag_id_views(out@) == flag_id_views(entry.flags@).take(j as int),
                decreases entry.flags@.len() - j,
            {
                let ghost prev = out@;
                out.push(
                    FlagId { name: entry.flags[j].name.clone(), invert: entry.flags[j].invert },
                );
                proof {
                    assert(flag_id_views(out@) =~= flag_id_views(prev).push(out@.last()@));
                    assert(out@.last()@ == flag_id_views(entry.flags@)[j as int]);
                    assert(flag_id_views(entry.flags@).take(j + 1) =~= flag_id_views(
                        entry.flags@,
                    ).take(j as int).push(flag_id_views(entry.flags@)[j as int]));
                }
                j += 1;
            }
            proof {
                assert(flag_id_views(entry.flags@).take(entry.flags@.len() as int)
                    =~= flag_id_views(entry.flags@));
            }
            return Some(out);
        }
        i += 1;
    }
    proof {
        assert(gac.skip(gac.len() as int) =~= Seq::<AcceptEntryView>::empty());
    }
    None
}

/// One rewriting decision: the candidate keeps its identity key, is tagged
/// with the conditional-compilation predicate of (key, priority), and, when
/// the table lists accepted flags for the key, gets a synthesized dispatcher
/// testing those flags in this order.
#[derive(Debug)]
pub struct ItemPlan {
    pub key: ItemKey,
    pub priority: u32,
    pub dispatch: Option<Vec<FlagId>>,
}

/// The mathematical image of an `ItemPlan`.
pub ghost struct ItemPlanView {
    pub key: KeyView,
    pub priority: u32,
    pub dispatch: Option<Seq<FlagIdView>>,
}

impl View for ItemPlan {
    type V = ItemPlanView;

    open spec fn view(&self) -> ItemPlanView {
        ItemPlanView {
            key: self.key@,
            priority: self.priority,
            dispatch: match &self.dispatch {
                Some(ids) => Some(flag_id_views(ids@)),
                None => None,
            },
        }
    }
}

/// The views of a sequence of item plans.
pub open spec fn plan_views(s: Seq<ItemPlan>) -> Seq<ItemPlanView> {
    s.map_values(|p: ItemPlan| p@)
}

/// The decision for one candidate of key `k` at the given priority.
pub open spec fn spec_plan(k: KeyView, priority: u32, t: PredicateTableView) -> ItemPlanView {
    ItemPlanView { key: k, priority, dispatch: find_accept(t.accepts, k) }
}

/// The decisions for an impl block's members, in order. A constant whose key
/// accepts flags is rejected: flags on constants are not supported.
pub open spec fn attach_members(
    st: Seq<char>,
    ms: Seq<ImplMemberView>,
    priority: u32,
    t: PredicateTableView,
) -> Result<Seq<ItemPlanView>, OverrideError>
    decreases ms.len(),
{
    if ms.len() == 0 {
        Ok(Seq::empty())
    } else {
        match attach_members(st, ms.drop_last(), priority, t) {
            Err(e) => Err(e),
            Ok(acc) => {
                let m = ms.last();
                let k = spec_member_key(st, m);
                if m.kind == MemberKind::ConstMember && find_accept(t.accepts, k) is Some {
                    Err(OverrideError::UnsupportedItemKind)
                } else {
                    Ok(acc.push(spec_plan(k, priority, t)))
                }
            },
        }
    }
}

proof fn lemma_attach_members_sticky(
    st: Seq<char>,
    ms: Seq<ImplMemberView>,
    priority: u32,
    t: PredicateTableView,
    i: int,
)
    requires
        0 <= i <= ms.len(),
        attach_members(st, ms.take(i), priority, t) is Err,
    ensures
        attach_members(st, ms, priority, t) == attach_members(st, ms.take(i), priority, t),
    decreases ms.len() - i,
{
    if i == ms.len() {
        assert(ms.take(i) =~= ms);
    } else {
        assert(ms.take(i + 1).drop_last() =~= ms.take(i));
        lemma_attach_members_sticky(st, ms, priority, t, i + 1);
    }
}

/// The decisions a `default` or `override_default` attribute makes for one
/// item at the given priority: one per target, a free function being its own
/// target and an impl block yielding one per member.
pub open spec fn spec_attach(
    item: SourceItemView,
    priority: u32,
    t: PredicateTableView,
) -> Result<Seq<ItemPlanView>, OverrideError> {
    match item {
        SourceItemView::Function { name, attrs } => Ok(
            seq![spec_plan(KeyView::Func { name }, priority, t)],
        ),
        SourceItemView::ImplBlock { self_type, attrs, members } => attach_members(
            self_type,
            members,
            priority,
            t,
        ),
        SourceItemView::Unparsed => Err(OverrideError::UnsupportedItemKind),
    }
}

/// The view of an attach result.
pub open spec fn plan_result_view(r: Result<Vec<ItemPlan>, OverrideError>) -> Result<
    Seq<ItemPlanView>,
    OverrideError,
> {
    match r {
        Ok(ps) => Ok(plan_views(ps@)),
        Err(e) => Err(e),
    }
}

/// Computes the attach decisions of one item at one priority.
fn attach(item: &SourceItem, priority: u32, table: &PredicateTable) -> (r: Result<
    Vec<ItemPlan>,
    OverrideError,
>)
    ensures
        plan_result_view(r) == spec_attach(item@, priority, table@),
{
    match item {
        SourceItem::Function { name, attrs } => {
            let key = ItemKey::Func { name: name.clone() };
            let dispatch = accepts_of(table, &key);
            let mut out: Vec<ItemPlan> = Vec::new();
            out.push(ItemPlan { key, priority, dispatch });
            proof {
                assert(plan_views(out@) =~= seq![out@.last()@]);
                assert(out@.last()@ == spec_plan(
                    KeyView::Func { name: name@ },
                    priority,
                    table@,
                ));
            }
            Ok(out)
        },
        SourceItem::ImplBlock { self_type, attrs, members } => {
            let ghost gms = member_views(members@);
            let mut out: Vec<ItemPlan> = Vec::new();
            let mut j: usize = 0;
            proof {
                assert(gms.take(0) =~= Seq::<ImplMemberView>::empty());
                assert(plan_views(out@) =~= Seq::<ItemPlanView>::empty());
            }
            while j < members.len()
                invariant
                    j <= members@.len(),
                    gms == member_views(members@),
                    spec_attach(item@, priority, table@) == attach_members(
                        self_type@,
                        gms,
                        priority,
                        table@,
                    ),
                    attach_members(self_type@, gms.take(j as int), priority, table@) == Ok::<
                        Seq<ItemPlanView>,
                        OverrideError,
                    >(plan_views(out@)),
                decreases members@.len() - j,
            {
                proof {
                    assert(gms.take(j + 1).drop_last() =~= gms.take(j as int));
                    assert(gms.take(j + 1).last() == gms[j as int]);
                    assert(gms[j as int] == members@[j as int]@);
                }
                let m = &members[j];
                let key = make_member_key(self_type, m);
                let dispatch = accepts_of(table, &key);
                let is_const = match m.kind {
                    MemberKind::ConstMember => true,
                    MemberKind::Method => false,
                };
                if is_const && dispatch.is_some() {
                    proof {
                        lemma_attach_members_sticky(self_type@, gms, priority, table@, j + 1);
                    }
                    return Err(OverrideError::UnsupportedItemKind);
                }
                let ghost prev = out@;
                out.push(ItemPlan { key, priority, dispatch });
                proof {
                    assert(plan_views(out@) =~= plan_views(prev).push(out@.last()@));
                    assert(out@.last()@ == spec_plan(
                        spec_member_key(self_type@, gms[j as int]),
                        priority,
                        table@,
                    ));
                }
                j += 1;
            }
            proof {
                assert(gms.take(gms.len() as int) =~= gms);
            }
            Ok(out)
        },
        SourceItem::Unparsed => Err(OverrideError::UnsupportedItemKind),
    }
}

/// What a `default` attribute does to one item: it takes no arguments and
/// tags every target at priority 0, with a dispatcher wherever the table
/// lists accepted flags.
pub open spec fn spec_default(
    args: Seq<char>,
    item: SourceItemView,
    t: PredicateTableView,
) -> Result<Seq<ItemPlanView>, OverrideError> {
    if trim(args).len() != 0 {
        Err(OverrideError::MalformedArguments)
    } else {
        spec_attach(item, 0, t)
    }
}

/// Rewrites a `default` attribute: no arguments allowed, priority 0.
pub fn default(args: &Vec<char>, item: &SourceItem, table: &PredicateTable) -> (r: Result<
    Vec<ItemPlan>,
    OverrideError,
>)
    ensures
        plan_result_view(r) == spec_default(args@, item@, table@),
{
    match parse_no_args(args) {
        Err(e) => Err(e),
        Ok(_) => attach(item, 0, table),
    }
}

/// What an `override_default` attribute does to one item: its argument text
/// fixes the priority (implicitly 1) and every target is tagged with it.
pub open spec fn spec_override_default(
    args: Seq<char>,
    item: SourceItemView,
    t: PredicateTableView,
) -> Result<Seq<ItemPlanView>, OverrideError> {
    match spec_priority_args(args) {
        Err(e) => Err(e),
        Ok(p) => spec_attach(item, p, t),
    }
}

/// Rewrites an `override_default` attribute: an optional `priority = <u32>`
/// argument, implicitly 1.
pub fn override_default(args: &Vec<char>, item: &SourceItem, table: &PredicateTable) -> (r:
    Result<Vec<ItemPlan>, OverrideError>)
    ensures
        plan_result_view(r) == spec_override_default(args@, item@, table@),
{
    match parse_priority_args(args) {
        Err(e) => Err(e),
        Ok(p) => attach(item, p, table),
    }
}

/// The flag declarations an `override_flag` attribute makes for an impl
/// block's members: one per method, in order; a constant is rejected.
pub open spec fn flag_members(
    st: Seq<char>,
    ms: Seq<ImplMemberView>,
    fa: FlagArgsView,
) -> Result<Seq<FlagDeclView>, OverrideError>
    decreases ms.len(),
{
    if ms.len() == 0 {
        Ok(Seq::empty())
    } else {
        match flag_members(st, ms.drop_last(), fa) {
            Err(e) => Err(e),
            Ok(acc) => {
                let m = ms.last();
                if m.kind == MemberKind::ConstMember {
                    Err(OverrideError::UnsupportedItemKind)
                } else {
                    Ok(
                        acc.push(
                            FlagDeclView {
                                key: spec_member_key(st, m),
                                flag: fa.flag,
                                invert: fa.invert,
                                priority: fa.priority,
                            },
                        ),
                    )
                }
            },
        }
    }
}

proof fn lemma_flag_members_sticky(st: Seq<char>, ms: Seq<ImplMemberView>, fa: FlagArgsView, i: int)
    requires
        0 <= i <= ms.len(),
        flag_members(st, ms.take(i), fa) is Err,
    ensures
        flag_members(st, ms, fa) == flag_members(st, ms.take(i), fa),
    decreases ms.len() - i,
{
    if i == ms.len() {
        assert(ms.take(i) =~= ms);
    } else {
        assert(ms.take(i + 1).drop_last() =~= ms.take(i));
        lemma_flag_members_sticky(st, ms, fa, i + 1);
    }
}

/// What an `override_flag` attribute does to one item: each target becomes a
/// flag declaration under the parsed flag identity and priority, and is
/// renamed out of the way of the dispatcher; constants are rejected.
pub open spec fn spec_override_flag(args: Seq<char>, item: SourceItemView) -> Result<
    Seq<FlagDeclView>,
    OverrideError,
> {
    match spec_flag_args(args) {
        Err(e) => Err(e),
        Ok(fa) => match item {
            SourceItemView::Function { name, attrs } => Ok(
                seq![
                    FlagDeclView {
                        key: KeyView::Func { name },
                        flag: fa.flag,
                        invert: fa.invert,
                        priority: fa.priority,
                    },
                ],
            ),
            SourceItemView::ImplBlock { self_type, attrs, members } => flag_members(
                self_type,
                members,
                fa,
            ),
            SourceItemView::Unparsed => Err(OverrideError::UnsupportedItemKind),
        },
    }
}

/// The view of an `override_flag` result.
pub open spec fn flag_plan_result_view(r: Result<Vec<FlagDecl>, OverrideError>) -> Result<
    Seq<FlagDeclView>,
    OverrideError,
> {
    match r {
        Ok(ds) => Ok(flag_decl_views(ds@)),
        Err(e) => Err(e),
    }
}

/// Rewrites an `override_flag` attribute: `flag = <ident>` required,
/// `priority = <u32>` optional (default 1), `invert = <bool>` optional
/// (default false); one flag declaration per target.
pub fn override_flag(args: &Vec<char>, item: &SourceItem) -> (r: Result<
    Vec<FlagDecl>,
    OverrideError,
>)
    ensures
        flag_plan_result_view(r) == spec_override_flag(args@, item@),
{
    let fa = match parse_flag_args(args) {
        Err(e) => {
            return Err(e);
        },
        Ok(fa) => fa,
    };
    match item {
        SourceItem::Function { name, attrs } => {
            let mut out: Vec<FlagDecl> = Vec::new();
            out.push(
                FlagDecl {
                    key: ItemKey::Func { name: name.clone() },
                    flag: fa.flag,
                    invert: fa.invert,
                    priority: fa.priority,
                },
            );
            proof {
                assert(flag_decl_views(out@) =~= seq![out@.last()@]);
            }
            Ok(out)
        },
        SourceItem::ImplBlock { self_type, attrs, members } => {
            let ghost gms = member_views(members@);
            let ghost gfa = fa@;
            let mut out: Vec<FlagDecl> = Vec::new();
            let mut j: usize = 0;
            proof {
                assert(gms.take(0) =~= Seq::<ImplMemberView>::empty());
                assert(flag_decl_views(out@) =~= Seq::<FlagDeclView>::empty());
            }
            while j < members.len()
                invariant
                    j <= members@.len(),
                    gms == member_views(members@),
                    gfa == fa@,
                    spec_override_flag(args@, item@) == flag_members(self_type@, gms, gfa),
                    flag_members(self_type@, gms.take(j as int), gfa) == Ok::<
                        Seq<FlagDeclView>,
                        OverrideError,
                    >(flag_decl_views(out@)),
                decreases members@.len() - j,
            {
                proof {
                    assert(gms.take(j + 1).drop_last() =~= gms.take(j as int));
                    assert(gms.take(j + 1).last() == gms[j as int]);
                    assert(gms[j as int] == members@[j as int]@);
                }
                let m = &members[j];
                match m.kind {
                    MemberKind::ConstMember => {
                        proof {
                            lemma_flag_members_sticky(self_type@, gms, gfa, j + 1);
                        }
                        return Err(OverrideError::UnsupportedItemKind);
                    },
                    MemberKind::Method => {
                        let ghost prev = out@;
                        out.push(
                            FlagDecl {
                                key: ItemKey::Method {
                                    owner: self_type.clone(),
                                    name: m.name.clone(),
                                },
                                flag: fa.flag.clone(),
                                invert: fa.invert,
                                priority: fa.priority,
                            },
                        );
                        proof {
                            assert(flag_decl_views(out@) =~= flag_decl_views(prev).push(
                                out@.last()@,
                            ));
                            assert(out@.last()@.key == spec_member_key(
                                self_type@,
                                gms[j as int],
                            ));
                        }
                    },
                }
                j += 1;
            }
            proof {
                assert(gms.take(gms.len() as int) =~= gms);
            }
            Ok(out)
        },
        SourceItem::Unparsed => Err(OverrideError::UnsupportedItemKind),
    }
}

/// What an `override_final` marker tells its author to write in order to
/// dominate: `default` when the stored requirement is 0, a bare
/// `override_default` when it is 1, and an explicit priority otherwise.
#[derive(Clone, Copy, Debug, PartialEq, Eq, Structural)]
pub enum FinalAdvice {
    UseDefault,
    UseOverrideDefault,
    UsePriority(u64),
}

/// The advice named by a stored required priority.
pub open spec fn advice_of(required: u64) -> FinalAdvice {
    if required == 0 {
        FinalAdvice::UseDefault
    } else if required == 1 {
        FinalAdvice::UseOverrideDefault
    } else {
        FinalAdvice::UsePriority(required)
    }
}

/// Computes the advice named by a stored required priority.
pub fn advice_for(required: u64) -> (r: FinalAdvice)
    ensures
        r == advice_of(required),
{
    if required == 0 {
        FinalAdvice::UseDefault
    } else if required == 1 {
        FinalAdvice::UseOverrideDefault
    } else {
        FinalAdvice::UsePriority(required)
    }
}

/// One target's build-break report: its identity key and the advice.
#[derive(Debug)]
pub struct FinalReport {
    pub key: ItemKey,
    pub advice: FinalAdvice,
}

/// The mathematical image of a `FinalReport`.
pub ghost struct FinalReportView {
    pub key: KeyView,
    pub advice: FinalAdvice,
}

impl View for FinalReport {
    type V = FinalReportView;

    open spec fn view(&self) -> FinalReportView {
        FinalReportView { key: self.key@, advice: self.advice }
    }
}

/// The views of a sequence of final reports.
pub open spec fn report_views(s: Seq<FinalReport>) -> Seq<FinalReportView> {
    s.map_values(|r: FinalReport| r@)
}

/// The reports of an impl block's members, in order, one per member; a
/// member whose key the scanner did not cover means the build step is
/// missing.
pub open spec fn final_members(
    st: Seq<char>,
    ms: Seq<ImplMemberView>,
    fs: Seq<FinalEntryView>,
) -> Result<Seq<FinalReportView>, OverrideError>
    decreases ms.len(),
{
    if ms.len() == 0 {
        Ok(Seq::empty())
    } else {
        match final_members(st, ms.drop_last(), fs) {
            Err(e) => Err(e),
            Ok(acc) => {
                let m = ms.last();
                let k = spec_member_key(st, m);
                match find_required(fs, k) {
                    None => Err(OverrideError::MissingBuildStep),
                    Some(rq) => Ok(acc.push(FinalReportView { key: k, advice: advice_of(rq) })),
                }
            },
        }
    }
}

proof fn lemma_final_members_sticky(
    st: Seq<char>,
    ms: Seq<ImplMemberView>,
    fs: Seq<FinalEntryView>,
    i: int,
)
    requires
        0 <= i <= ms.len(),
        final_members(st, ms.take(i), fs) is Err,
    ensures
        final_members(st, ms, fs) == final_members(st, ms.take(i), fs),
    decreases ms.len() - i,
{
    if i == ms.len() {
        assert(ms.take(i) =~= ms);
    } else {
        assert(ms.take(i + 1).drop_last() =~= ms.take(i));
        lemma_final_members_sticky(st, ms, fs, i + 1);
    }
}

/// What an `override_final` marker does to one item: it takes no arguments,
/// never compiles the item, and reports for every target the priority an
/// author must write to dominate the target's chain, every member combined
/// into one report set.
pub open spec fn spec_override_final(
    args: Seq<char>,
    item: SourceItemView,
    t: PredicateTableView,
) -> Result<Seq<FinalReportView>, OverrideError> {
    if trim(args).len() != 0 {
        Err(OverrideError::MalformedArguments)
    } else {
        match item {
            SourceItemView::Function { name, attrs } => {
                let k = KeyView::Func { name };
                match find_required(t.finals, k) {
                    None => Err(OverrideError::MissingBuildStep),
                    Some(rq) => Ok(seq![FinalReportView { key: k, advice: advice_of(rq) }]),
                }
            },
            SourceItemView::ImplBlock { self_type, attrs, members } => final_members(
                self_type,
                members,
                t.finals,
            ),
            SourceItemView::Unparsed => Err(OverrideError::UnsupportedItemKind),
        }
    }
}

/// The view of an `override_final` result.
pub open spec fn report_result_view(r: Result<Vec<FinalReport>, OverrideError>) -> Result<
    Seq<FinalReportView>,
    OverrideError,
> {
    match r {
        Ok(rs) => Ok(report_views(rs@)),
        Err(e) => Err(e),
    }
}

/// Rewrites an `override_final` marker: no arguments, one build-break report
/// per target naming the priority required to dominate.
pub fn override_final(args: &Vec<char>, item: &SourceItem, table: &PredicateTable) -> (r: Result<
    Vec<FinalReport>,
    OverrideError,
>)
    ensures
        report_result_view(r) == spec_override_final(args@, item@, table@),
{
    match parse_no_args(args) {
        Err(e) => {
            return Err(e);
        },
        Ok(_) => {},
    }
    match item {
        SourceItem::Function { name, attrs } => {
            let key = ItemKey::Func { name: name.clone() };
            match required_of(table, &key) {
                None => Err(OverrideError::MissingBuildStep),
                Some(rq) => {
                    let mut out: Vec<FinalReport> = Vec::new();
                    out.push(FinalReport { key, advice: advice_for(rq) });
                    proof {
                        assert(report_views(out@) =~= seq![out@.last()@]);
                    }
                    Ok(out)
                },
            }
        },
        SourceItem::ImplBlock { self_type, attrs, members } => {
            let ghost gms = member_views(members@);
            let mut out: Vec<FinalReport> = Vec::new();
            let mut j: usize = 0;
            proof {
                assert(gms.take(0) =~= Seq::<ImplMemberView>::empty());
                assert(report_views(out@) =~= Seq::<FinalReportView>::empty());
            }
            while j < members.len()
                invariant
                    j <= members@.len(),
                    gms == member_views(members@),
                    spec_override_final(args@, item@, table@) == final_members(
                        self_type@,
                        gms,
                        table@.finals,
                    ),
                    final_members(self_type@, gms.take(j as int), table@.finals) == Ok::<
                        Seq<FinalReportView>,
                        OverrideError,
                    >(report_views(out@)),
                decreases members@.len() - j,
            {
                proof {
                    assert(gms.take(j + 1).drop_last() =~= gms.take(j as int));
                    assert(gms.take(j + 1).last() == gms[j as int]);
                    assert(gms[j as int] == members@[j as int]@);
                }
                let m = &members[j];
                let key = make_member_key(self_type, m);
                match required_of(table, &key) {
                    None => {
                        proof {
                            lemma_final_members_sticky(self_type@, gms, table@.finals, j + 1);
                        }
                        return Err(OverrideError::MissingBuildStep);
                    },
                    Some(rq) => {
                        let ghost prev = out@;
                        out.push(FinalReport { key, advice: advice_for(rq) });
                        proof {
                            assert(report_views(out@) =~= report_views(prev).push(out@.last()@));
                        }
                    },
                }
                j += 1;
            }
            proof {
                assert(gms.take(gms.len() as int) =~= gms);
            }
            Ok(out)
        },
        SourceItem::Unparsed => Err(OverrideError::UnsupportedItemKind),
    }
}

/// Whether a dispatch branch fires for a given runtime occurrence count: an
/// inverted branch fires when its flag was not given, a plain one when it
/// was given at least once.
pub open spec fn branch_active(b: FlagIdView, occurrences: u64) -> bool {
    if b.invert {
        occurrences == 0
    } else {
        occurrences > 0
    }
}

/// The branch a synthesized dispatcher takes: the first accepted flag, in
/// dispatch order, whose runtime test fires; `None` falls through to the
/// plain default implementation.
pub fn select_branch(branches: &Vec<FlagId>, occurrences: &Vec<u64>) -> (r: Option<usize>)
    requires
        occurrences@.len() == branches@.len(),
    ensures
        match r {
            Some(i) => i < branches@.len() && branch_active(branches@[i as int]@, occurrences@[i as int])
                && forall|j: int|
                    0 <= j < i ==> !branch_active(
                        (#[trigger] branches@[j])@,
                        occurrences@[j],
                    ),
            None => forall|j: int|
                0 <= j < branches@.len() ==> !branch_active(
                    (#[trigger] branches@[j])@,
                    occurrences@[j],
                ),
        },
{
    let mut i: usize = 0;
    while i < branches.len()
        invariant
            i <= branches@.len(),
            occurrences@.len() == branches@.len(),
            forall|j: int|
                0 <= j < i ==> !branch_active((#[trigger] branches@[j])@, occurrences@[j]),
        decreases branches@.len() - i,
    {
        let occ = occurrences[i];
        let active = if branches[i].invert {
            occ == 0
        } else {
            occ > 0
        };
        if active {
            return Some(i);
        }
        i += 1;
    }
    None
}

} // verus!