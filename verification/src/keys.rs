//! Identity keys of taggable items. An item is a free function, an
//! inherent-impl method or an inherent-impl constant; its identity is the
//! item kind together with the owning type's name (for impl members) and the
//! item's own name.

use vstd::prelude::*;

use crate::text::chars_eq;

verus! {

/// The identity of a taggable item.
#[derive(Debug)]
pub enum ItemKey {
    Func { name: Vec<char> },
    Method { owner: Vec<char>, name: Vec<char> },
    ImplConst { owner: Vec<char>, name: Vec<char> },
}

/// The mathematical image of an `ItemKey`.
pub ghost enum KeyView {
    Func { name: Seq<char> },
    Method { owner: Seq<char>, name: Seq<char> },
    ImplConst { owner: Seq<char>, name: Seq<char> },
}

impl View for ItemKey {
    type V = KeyView;

    open spec fn view(&self) -> KeyView {
        match self {
            ItemKey::Func { name } => KeyView::Func { name: name@ },
            ItemKey::Method { owner, name } => KeyView::Method { owner: owner@, name: name@ },
            ItemKey::ImplConst { owner, name } => KeyView::ImplConst {
                owner: owner@,
                name: name@,
            },
        }
    }
}

impl ItemKey {
    /// Structural equality of two identity keys.
    pub fn key_eq(&self, other: &ItemKey) -> (r: bool)
        ensures
            r == (self@ == other@),
    {
        match (self, other) {
            (ItemKey::Func { name: a }, ItemKey::Func { name: b }) => chars_eq(a, b),
            (
                ItemKey::Method { owner: ao, name: an },
                ItemKey::Method { owner: bo, name: bn },
            ) => {
                let r = chars_eq(ao, bo);
                r && chars_eq(an, bn)
            },
            (
                ItemKey::ImplConst { owner: ao, name: an },
                ItemKey::ImplConst { owner: bo, name: bn },
            ) => {
                let r = chars_eq(ao, bo);
                r && chars_eq(an, bn)
            },
            _ => false,
        }
    }

    /// A fresh copy of the key.
    pub fn duplicate(&self) -> (r: ItemKey)
        ensures
            r@ == self@,
    {
        match self {
            ItemKey::Func { name } => ItemKey::Func { name: name.clone() },
            ItemKey::Method { owner, name } => ItemKey::Method {
                owner: owner.clone(),
                name: name.clone(),
            },
            ItemKey::ImplConst { owner, name } => ItemKey::ImplConst {
                owner: owner.clone(),
                name: name.clone(),
            },
        }
    }
}

} // verus!
