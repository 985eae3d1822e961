//! The scanner's front half: classifying the attributes of one source item
//! and extracting the override, final and flag declarations of a whole file
//! set.
//!
//! Impl blocks carry their attribute on the block itself; the block's
//! classification applies uniformly to every method and constant inside it.

use vstd::prelude::*;

use crate::args::flag_result_view;
use crate::args::parse_flag_args;
use crate::args::parse_no_args;
use crate::args::parse_priority_args;
use crate::args::spec_flag_args;
use crate::args::spec_priority_args;
use crate::keys::ItemKey;
use crate::keys::KeyView;
use crate::text::chars_eq_str;
use crate::text::trim;
use crate::OverrideError;

verus! {

/// An attribute as the pipeline sees it: its single-segment path and the raw
/// argument text between its parentheses (empty when there are none).
pub struct Attr {
    pub name: Vec<char>,
    pub args: Vec<char>,
}

/// The mathematical image of an `Attr`.
pub ghost struct AttrView {
    pub name: Seq<char>,
    pub args: Seq<char>,
}

impl View for Attr {
    type V = AttrView;

    open spec fn view(&self) -> AttrView {
        AttrView { name: self.name@, args: self.args@ }
    }
}

/// The views of a sequence of attributes.
pub open spec fn attr_views(attrs: Seq<Attr>) -> Seq<AttrView> {
    attrs.map_values(|a: Attr| a@)
}

/// The classification of one item's attribute list.
#[derive(Debug)]
pub enum Status {
    /// A `default` (priority 0) or `override_default` declaration.
    Norm { priority: u32 },
    /// An `override_flag` declaration.
    Flagged { flag: Vec<char>, priority: u32, invert: bool },
    /// An `override_final` marker.
    FinalMark,
    /// No recognized attribute.
    Empty,
}

/// The mathematical image of a `Status`.
pub ghost enum StatusView {
    Norm { priority: u32 },
    Flagged { flag: Seq<char>, priority: u32, invert: bool },
    FinalMark,
    Empty,
}

impl View for Status {
    type V = StatusView;

    open spec fn view(&self) -> StatusView {
        match self {
            Status::Norm { priority } => StatusView::Norm { priority: *priority },
            Status::Flagged { flag, priority, invert } => StatusView::Flagged {
                flag: flag@,
                priority: *priority,
                invert: *invert,
            },
            Status::FinalMark => StatusView::FinalMark,
            Status::Empty => StatusView::Empty,
        }
    }
}

/// The view of a classification result.
pub open spec fn status_result_view(r: Result<Status, OverrideError>) -> Result<
    StatusView,
    OverrideError,
> {
    match r {
        Ok(s) => Ok(s@),
        Err(e) => Err(e),
    }
}

/// An attribute path the pipeline recognizes.
pub open spec fn recognized(name: Seq<char>) -> bool {
    ||| name == "default"@
    ||| name == "override_default"@
    ||| name == "override_flag"@
    ||| name == "override_final"@
}

/// What one recognized attribute means: `default` is priority 0 and takes no
/// arguments, `override_default` takes an optional priority (implicitly 1),
/// `override_flag` takes its flag schema, and `override_final` takes no
/// arguments.
pub open spec fn classify_one(a: AttrView) -> Result<StatusView, OverrideError> {
    if a.name == "default"@ {
        if trim(a.args).len() == 0 {
            Ok(StatusView::Norm { priority: 0 })
        } else {
            Err(OverrideError::MalformedArguments)
        }
    } else if a.name == "override_default"@ {
        match spec_priority_args(a.args) {
            Ok(p) => Ok(StatusView::Norm { priority: p }),
            Err(e) => Err(e),
        }
    } else if a.name == "override_flag"@ {
        match spec_flag_args(a.args) {
            Ok(f) => Ok(StatusView::Flagged { flag: f.flag, priority: f.priority, invert: f.invert }),
            Err(e) => Err(e),
        }
    } else {
        if trim(a.args).len() == 0 {
            Ok(StatusView::FinalMark)
        } else {
            Err(OverrideError::MalformedArguments)
        }
    }
}

/// The classification of an attribute list: the first recognized attribute,
/// in source order, decides.
pub open spec fn spec_classify(attrs: Seq<AttrView>) -> Result<StatusView, OverrideError>
    decreases attrs.len(),
{
    if attrs.len() == 0 {
        Ok(StatusView::Empty)
    } else if recognized(attrs[0].name) {
        classify_one(attrs[0])
    } else {
        spec_classify(attrs.drop_first())
    }
}

/// Classifies an item's attribute list: the first recognized attribute
/// decides the item's status, and its argument text must match that
/// attribute's grammar.
pub fn get_priority(attrs: &Vec<Attr>) -> (r: Result<Status, OverrideError>)
    ensures
        status_result_view(r) == spec_classify(attr_views(attrs@)),
{
    let ghost gas = attr_views(attrs@);
    let mut i: usize = 0;
    proof {
        assert(gas.skip(0) =~= gas);
    }
    while i < attrs.len()
        invariant
            i <= attrs@.len(),
            gas == attr_views(attrs@),
            spec_classify(gas) == spec_classify(gas.skip(i as int)),
        decreases attrs@.len() - i,
    {
        let a = &attrs[i];
        let ghost rem = gas.skip(i as int);
        proof {
            assert(rem[0] == gas[i as int]);
            assert(gas[i as int] == attrs@[i as int]@);
            assert(rem.drop_first() =~= gas.skip(i + 1));
        }
        if chars_eq_str(&a.name, "default") {
            return match parse_no_args(&a.args) {
                Ok(_) => Ok(Status::Norm { priority: 0 }),
                Err(e) => Err(e),
            };
        } else if chars_eq_str(&a.name, "override_default") {
            return match parse_priority_args(&a.args) {
                Ok(p) => Ok(Status::Norm { priority: p }),
                Err(e) => Err(e),
            };
        } else if chars_eq_str(&a.name, "override_flag") {
            return match parse_flag_args(&a.args) {
                Ok(f) => Ok(Status::Flagged { flag: f.flag, priority: f.priority, invert: f.invert }),
                Err(e) => Err(e),
            };
        } else if chars_eq_str(&a.name, "override_final") {
            return match parse_no_args(&a.args) {
                Ok(_) => Ok(Status::FinalMark),
                Err(e) => Err(e),
            };
        }
        i += 1;
    }
    proof {
        assert(gas.skip(gas.len() as int) =~= Seq::<AttrView>::empty());
    }
    Ok(Status::Empty)
}

/// The kind of an impl-block member.
#[derive(Clone, Copy, PartialEq, Eq, Structural)]
pub enum MemberKind {
    Method,
    ConstMember,
}

/// A method or constant inside an impl block.
pub struct ImplMember {
    pub kind: MemberKind,
    pub name: Vec<char>,
}

/// The mathematical image of an `ImplMember`.
pub ghost struct ImplMemberView {
    pub kind: MemberKind,
    pub name: Seq<char>,
}

impl View for ImplMember {
    type V = ImplMemberView;

    open spec fn view(&self) -> ImplMemberView {
        ImplMemberView { kind: self.kind, name: self.name@ }
    }
}

/// The views of a sequence of impl members.
pub open spec fn member_views(ms: Seq<ImplMember>) -> Seq<ImplMemberView> {
    ms.map_values(|m: ImplMember| m@)
}

/// A top-level source item as the pipeline sees it. Items of any other shape
/// take no part in overriding and appear as `Unparsed`.
pub enum SourceItem {
    Function { name: Vec<char>, attrs: Vec<Attr> },
    ImplBlock { self_type: Vec<char>, attrs: Vec<Attr>, members: Vec<ImplMember> },
    Unparsed,
}

/// The mathematical image of a `SourceItem`.
pub ghost enum SourceItemView {
    Function { name: Seq<char>, attrs: Seq<AttrView> },
    ImplBlock { self_type: Seq<char>, attrs: Seq<AttrView>, members: Seq<ImplMemberView> },
    Unparsed,
}

impl View for SourceItem {
    type V = SourceItemView;

    open spec fn view(&self) -> SourceItemView {
        match self {
            SourceItem::Function { name, attrs } => SourceItemView::Function {
                name: name@,
                attrs: attr_views(attrs@),
            },
            SourceItem::ImplBlock { self_type, attrs, members } => SourceItemView::ImplBlock {
                self_type: self_type@,
                attrs: attr_views(attrs@),
                members: member_views(members@),
            },
            SourceItem::Unparsed => SourceItemView::Unparsed,
        }
    }
}

/// The views of a sequence of source items.
pub open spec fn item_views(items: Seq<SourceItem>) -> Seq<SourceItemView> {
    items.map_values(|it: SourceItem| it@)
}

/// One override declaration: an identity key and its priority.
pub struct OverrideDecl {
    pub key: ItemKey,
    pub priority: u32,
}

/// The mathematical image of an `OverrideDecl`.
pub ghost struct OverrideDeclView {
    pub key: KeyView,
    pub priority: u32,
}

impl View for OverrideDecl {
    type V = OverrideDeclView;

    open spec fn view(&self) -> OverrideDeclView {
        OverrideDeclView { key: self.key@, priority: self.priority }
    }
}

/// The views of a sequence of override declarations.
pub open spec fn odecl_views(s: Seq<OverrideDecl>) -> Seq<OverrideDeclView> {
    s.map_values(|d: OverrideDecl| d@)
}

/// One flag declaration: an identity key, the flag's name, its invert bit
/// and its priority.
#[derive(Debug)]
pub struct FlagDecl {
    pub key: ItemKey,
    pub flag: Vec<char>,
    pub invert: bool,
    pub priority: u32,
}

/// The mathematical image of a `FlagDecl`.
pub ghost struct FlagDeclView {
    pub key: KeyView,
    pub flag: Seq<char>,
    pub invert: bool,
    pub priority: u32,
}

impl View for FlagDecl {
    type V = FlagDeclView;

    open spec fn view(&self) -> FlagDeclView {
        FlagDeclView {
            key: self.key@,
            flag: self.flag@,
            invert: self.invert,
            priority: self.priority,
        }
    }
}

/// The views of a sequence of flag declarations.
pub open spec fn flag_decl_views(s: Seq<FlagDecl>) -> Seq<FlagDeclView> {
    s.map_values(|d: FlagDecl| d@)
}

/// The views of a sequence of identity keys.
pub open spec fn key_views(s: Seq<ItemKey>) -> Seq<KeyView> {
    s.map_values(|k: ItemKey| k@)
}

/// Everything the scanner gathers from a file set: the override
/// declarations, the final markers and the flag declarations, each in source
/// order.
pub struct Extraction {
    pub overrides: Vec<OverrideDecl>,
    pub finals: Vec<ItemKey>,
    pub flags: Vec<FlagDecl>,
}

/// The mathematical image of an `Extraction`.
pub ghost struct ExtractionView {
    pub overrides: Seq<OverrideDeclView>,
    pub finals: Seq<KeyView>,
    pub flags: Seq<FlagDeclView>,
}

impl View for Extraction {
    type V = ExtractionView;

    open spec fn view(&self) -> ExtractionView {
        ExtractionView {
            overrides: odecl_views(self.overrides@),
            finals: key_views(self.finals@),
            flags: flag_decl_views(self.flags@),
        }
    }
}

/// An extraction with nothing in it.
pub open spec fn ev_empty() -> ExtractionView {
    ExtractionView {
        overrides: Seq::empty(),
        finals: Seq::empty(),
        flags: Seq::empty(),
    }
}

/// Two extractions, one after the other.
pub open spec fn ev_add(a: ExtractionView, b: ExtractionView) -> ExtractionView {
    ExtractionView {
        overrides: a.overrides + b.overrides,
        finals: a.finals + b.finals,
        flags: a.flags + b.flags,
    }
}

/// The identity key of an impl-block member owned by `self_type`.
pub open spec fn spec_member_key(self_type: Seq<char>, m: ImplMemberView) -> KeyView {
    match m.kind {
        MemberKind::Method => KeyView::Method { owner: self_type, name: m.name },
        MemberKind::ConstMember => KeyView::ImplConst { owner: self_type, name: m.name },
    }
}

/// The declarations of one source item. A function's classification yields
/// one declaration under its own key; an impl block's classification is
/// applied to every member; an unrecognized or unparsed item yields nothing.
pub open spec fn item_decls(item: SourceItemView) -> Result<ExtractionView, OverrideError> {
    match item {
        SourceItemView::Function { name, attrs } => match spec_classify(attrs) {
            Err(e) => Err(e),
            Ok(st) => Ok(
                match st {
                    StatusView::Norm { priority } => ExtractionView {
                        overrides: seq![
                            OverrideDeclView { key: KeyView::Func { name }, priority },
                        ],
                        finals: Seq::empty(),
                        flags: Seq::empty(),
                    },
                    StatusView::Flagged { flag, priority, invert } => ExtractionView {
                        overrides: Seq::empty(),
                        finals: Seq::empty(),
                        flags: seq![
                            FlagDeclView { key: KeyView::Func { name }, flag, invert, priority },
                        ],
                    },
                    StatusView::FinalMark => ExtractionView {
                        overrides: Seq::empty(),
                        finals: seq![KeyView::Func { name }],
                        flags: Seq::empty(),
                    },
                    StatusView::Empty => ev_empty(),
                },
            ),
        },
        SourceItemView::ImplBlock { self_type, attrs, members } => match spec_classify(attrs) {
            Err(e) => Err(e),
            Ok(st) => Ok(
                match st {
                    StatusView::Norm { priority } => ExtractionView {
                        overrides: members.map_values(
                            |m: ImplMemberView|
                                OverrideDeclView { key: spec_member_key(self_type, m), priority },
                        ),
                        finals: Seq::empty(),
                        flags: Seq::empty(),
                    },
                    StatusView::Flagged { flag, priority, invert } => ExtractionView {
                        overrides: Seq::empty(),
                        finals: Seq::empty(),
                        flags: members.map_values(
                            |m: ImplMemberView|
                                FlagDeclView {
                                    key: spec_member_key(self_type, m),
                                    flag,
                                    invert,
                                    priority,
                                },
                        ),
                    },
                    StatusView::FinalMark => ExtractionView {
                        overrides: Seq::empty(),
                        finals: members.map_values(
                            |m: ImplMemberView| spec_member_key(self_type, m),
                        ),
                        flags: Seq::empty(),
                    },
                    StatusView::Empty => ev_empty(),
                },
            ),
        },
        SourceItemView::Unparsed => Ok(ev_empty()),
    }
}

/// The declarations of a whole file set, item by item in source order. The
/// first malformed attribute aborts the scan.
pub open spec fn spec_extract(items: Seq<SourceItemView>) -> Result<ExtractionView, OverrideError>
    decreases items.len(),
{
    if items.len() == 0 {
        Ok(ev_empty())
    } else {
        match spec_extract(items.drop_last()) {
            Err(e) => Err(e),
            Ok(acc) => match item_decls(items.last()) {
                Err(e) => Err(e),
                Ok(d) => Ok(ev_add(acc, d)),
            },
        }
    }
}

proof fn lemma_extract_sticky(items: Seq<SourceItemView>, i: int)
    requires
        0 <= i <= items.len(),
        spec_extract(items.take(i)) is Err,
    ensures
        spec_extract(items) == spec_extract(items.take(i)),
    decreases items.len() - i,
{
    if i == items.len() {
        assert(items.take(i) =~= items);
    } else {
        assert(items.take(i + 1).drop_last() =~= items.take(i));
        lemma_extract_sticky(items, i + 1);
    }
}

/// The view of an extraction result.
pub open spec fn extract_result_view(r: Result<Extraction, OverrideError>) -> Result<
    ExtractionView,
    OverrideError,
> {
    match r {
        Ok(ex) => Ok(ex@),
        Err(e) => Err(e),
    }
}

/// Builds the identity key of an impl-block member.
pub fn make_member_key(self_type: &Vec<char>, m: &ImplMember) -> (r: ItemKey)
    ensures
        r@ == spec_member_key(self_type@, m@),
{
    match m.kind {
        MemberKind::Method => ItemKey::Method { owner: self_type.clone(), name: m.name.clone() },
        MemberKind::ConstMember => ItemKey::ImplConst {
            owner: self_type.clone(),
            name: m.name.clone(),
        },
    }
}

/// Extracts every override, final and flag declaration of a file set, in
/// source order. Fails on the first malformed attribute.
pub fn extract(items: &Vec<SourceItem>) -> (r: Result<Extraction, OverrideError>)
    ensures
        extract_result_view(r) == spec_extract(item_views(items@)),
{
    let ghost gits = item_views(items@);
    let mut ovs: Vec<OverrideDecl> = Vec::new();
    let mut fins: Vec<ItemKey> = Vec::new();
    let mut fls: Vec<FlagDecl> = Vec::new();
    let mut i: usize = 0;
    proof {
        assert(gits.take(0) =~= Seq::<SourceItemView>::empty());
        assert(odecl_views(ovs@) =~= Seq::<OverrideDeclView>::empty());
        assert(key_views(fins@) =~= Seq::<KeyView>::empty());
        assert(flag_decl_views(fls@) =~= Seq::<FlagDeclView>::empty());
    }
    while i < items.len()
        invariant
            i <= items@.len(),
            gits == item_views(items@),
            spec_extract(gits.take(i as int)) == Ok::<ExtractionView, OverrideError>(
                ExtractionView {
                    overrides: odecl_views(ovs@),
                    finals: key_views(fins@),
                    flags: flag_decl_views(fls@),
                },
            ),
        decreases items@.len() - i,
    {
        proof {
            assert(gits.take(i + 1).drop_last() =~= gits.take(i as int));
            assert(gits.take(i + 1).last() == gits[i as int]);
            assert(gits[i as int] == items@[i as int]@);
        }
        let ghost pre = ExtractionView {
            overrides: odecl_views(ovs@),
            finals: key_views(fins@),
            flags: flag_decl_views(fls@),
        };
        let item = &items[i];
        match item {
            SourceItem::Function { name, attrs } => {
                match get_priority(attrs) {
                    Err(e) => {
                        proof {
                            lemma_extract_sticky(gits, i + 1);
                        }
                        return Err(e);
                    },
                    Ok(st) => {
                        match st {
                            Status::Norm { priority } => {
                                ovs.push(
                                    OverrideDecl {
                                        key: ItemKey::Func { name: name.clone() },
                                        priority,
                                    },
                                );
                                proof {
                                    assert(odecl_views(ovs@) =~= pre.overrides + seq![
                                        ovs@.last()@,
                                    ]);
                                }
                            },
                            Status::Flagged { flag, priority, invert } => {
                                fls.push(
                                    FlagDecl {
                                        key: ItemKey::Func { name: name.clone() },
                                        flag,
                                        invert,
                                        priority,
                                    },
                                );
                                proof {
                                    assert(flag_decl_views(fls@) =~= pre.flags + seq![
                                        fls@.last()@,
                                    ]);
                                }
                            },
                            Status::FinalMark => {
                                fins.push(ItemKey::Func { name: name.clone() });
                                proof {
                                    assert(key_views(fins@) =~= pre.finals + seq![
                                        fins@.last()@,
                                    ]);
                                }
                            },
                            Status::Empty => {
                            },
                        }
                    },
                }
            },
            SourceItem::ImplBlock { self_type, attrs, members } => {
                let ghost gms = member_views(members@);
                match get_priority(attrs) {
                    Err(e) => {
                        proof {
                            lemma_extract_sticky(gits, i + 1);
                        }
                        return Err(e);
                    },
                    Ok(st) => {
                        match st {
                            Status::Norm { priority } => {
                                let ghost f = |m: ImplMemberView| OverrideDeclView {
                                    key: spec_member_key(self_type@, m),
                                    priority,
                                };
                                let mut j: usize = 0;
                                while j < members.len()
                                    invariant
                                        j <= members@.len(),
                                        gms == member_views(members@),
                                        forall|m: ImplMemberView| #[trigger] f(m)
                                            == (OverrideDeclView {
                                                key: spec_member_key(self_type@, m),
                                                priority,
                                            }),
                                        odecl_views(ovs@) == pre.overrides + gms.take(
                                            j as int,
                                        ).map_values(f),
                                    decreases members@.len() - j,
                                {
                                    let ghost prev = ovs@;
                                    ovs.push(
                                        OverrideDecl {
                                            key: make_member_key(self_type, &members[j]),
                                            priority,
                                        },
                                    );
                                    proof {
                                        assert(gms[j as int] == members@[j as int]@);
                                        assert(odecl_views(ovs@) =~= odecl_views(prev).push(
                                            ovs@.last()@,
                                        ));
                                        assert(ovs@.last()@ == f(gms[j as int]));
                                        assert(gms.take(j + 1) =~= gms.take(j as int).push(
                                            gms[j as int],
                                        ));
                                        assert(gms.take(j + 1).map_values(f) =~= gms.take(
                                            j as int,
                                        ).map_values(f).push(f(gms[j as int])));
                                        assert(odecl_views(ovs@) =~= pre.overrides + gms.take(
                                            j + 1,
                                        ).map_values(f));
                                    }
                                    j += 1;
                                }
                                proof {
                                    assert(gms.take(gms.len() as int) =~= gms);
                                }
                            },
                            Status::Flagged { flag, priority, invert } => {
                                let ghost gflag = flag@;
                                let ghost f = |m: ImplMemberView| FlagDeclView {
                                    key: spec_member_key(self_type@, m),
                                    flag: gflag,
                                    invert,
                                    priority,
                                };
                                let mut j: usize = 0;
                                while j < members.len()
                                    invariant
                                        j <= members@.len(),
                                        gms == member_views(members@),
                                        gflag == flag@,
                                        forall|m: ImplMemberView| #[trigger] f(m)
                                            == (FlagDeclView {
                                                key: spec_member_key(self_type@, m),
                                                flag: gflag,
                                                invert,
                                                priority,
                                            }),
                                        flag_decl_views(fls@) == pre.flags + gms.take(
                                            j as int,
                                        ).map_values(f),
                                    decreases members@.len() - j,
                                {
                                    let ghost prev = fls@;
                                    fls.push(
                                        FlagDecl {
                                            key: make_member_key(self_type, &members[j]),
                                            flag: flag.clone(),
                                            invert,
                                            priority,
                                        },
                                    );
                                    proof {
                                        assert(gms[j as int] == members@[j as int]@);
                                        assert(flag_decl_views(fls@) =~= flag_decl_views(
                                            prev,
                                        ).push(fls@.last()@));
                                        assert(fls@.last()@ == f(gms[j as int]));
                                        assert(gms.take(j + 1) =~= gms.take(j as int).push(
                                            gms[j as int],
                                        ));
                                        assert(gms.take(j + 1).map_values(f) =~= gms.take(
                                            j as int,
                                        ).map_values(f).push(f(gms[j as int])));
                                        assert(flag_decl_views(fls@) =~= pre.flags + gms.take(
                                            j + 1,
                                        ).map_values(f));
                                    }
                                    j += 1;
                                }
                                proof {
                                    assert(gms.take(gms.len() as int) =~= gms);
                                }
                            },
                            Status::FinalMark => {
                                let ghost f = |m: ImplMemberView| spec_member_key(self_type@, m);
                                let mut j: usize = 0;
                                while j < members.len()
                                    invariant
                                        j <= members@.len(),
                                        gms == member_views(members@),
                                        forall|m: ImplMemberView| #[trigger] f(m)
                                            == spec_member_key(self_type@, m),
                                        key_views(fins@) == pre.finals + gms.take(
                                            j as int,
                                        ).map_values(f),
                                    decreases members@.len() - j,
                                {
                                    let ghost prev = fins@;
                                    fins.push(make_member_key(self_type, &members[j]));
                                    proof {
                                        assert(gms[j as int] == members@[j as int]@);
                                        assert(key_views(fins@) =~= key_views(prev).push(
                                            fins@.last()@,
                                        ));
                                        assert(fins@.last()@ == f(gms[j as int]));
                                        assert(gms.take(j + 1) =~= gms.take(j as int).push(
                                            gms[j as int],
                                        ));
                                        assert(gms.take(j + 1).map_values(f) =~= gms.take(
                                            j as int,
                                        ).map_values(f).push(f(gms[j as int])));
                                        assert(key_views(fins@) =~= pre.finals + gms.take(
                                            j + 1,
                                        ).map_values(f));
                                    }
                                    j += 1;
                                }
                                proof {
                                    assert(gms.take(gms.len() as int) =~= gms);
                                }
                            },
                            Status::Empty => {
                            },
                        }
                    },
                }
            },
            SourceItem::Unparsed => {
            },
        }
        proof {
            let post = ExtractionView {
                overrides: odecl_views(ovs@),
                finals: key_views(fins@),
                flags: flag_decl_views(fls@),
            };
            assert(item_decls(gits[i as int]) is Ok);
            assert(post.overrides =~= ev_add(pre, item_decls(gits[i as int]).unwrap()).overrides);
            assert(post.finals =~= ev_add(pre, item_decls(gits[i as int]).unwrap()).finals);
            assert(post.flags =~= ev_add(pre, item_decls(gits[i as int]).unwrap()).flags);
        }
        i += 1;
    }
    proof {
        assert(gits.take(gits.len() as int) =~= gits);
    }
    Ok(Extraction { overrides: ovs, finals: fins, flags: fls })
}

} // verus!
