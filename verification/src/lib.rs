//! A compile-time override mechanism, modelled as an explicit two-phase
//! pipeline.
//!
//! Authors mark an item (a free function, an inherent-impl method or an
//! inherent-impl constant) as a `default` implementation and may supply
//! competing `override_default` implementations carrying integer priorities,
//! runtime-flag-gated `override_flag` variants, and `override_final` markers.
//! A build-time scanner groups the declarations of one identity key into a
//! chain, selects the highest-priority candidate of each chain, and emits a
//! table of compilation predicates; the attribute rewriter consumes that
//! table to keep exactly the winning candidate, to synthesize a runtime flag
//! dispatcher, and to report the priority an `override_final` marker would
//! need to dominate its chain.

use vstd::prelude::*;

pub mod args;
pub mod keys;
pub mod laws;
pub mod names;
pub mod resolve;
pub mod rewrite;
pub mod scan;
pub mod text;

use crate::resolve::resolve;
use crate::resolve::spec_resolve;
use crate::resolve::PredicateTable;
use crate::scan::extract;
use crate::scan::item_views;
use crate::scan::spec_extract;
use crate::scan::ExtractionView;
use crate::scan::SourceItem;

verus! {

/// How an attribute's argument list or a table lookup can fail.
#[derive(Clone, Copy, Debug, PartialEq, Eq, Structural)]
pub enum OverrideError {
    /// The argument list does not match the attribute's grammar.
    MalformedArguments,
    /// A value that should be a non-negative integer literal is not.
    InvalidLiteral,
    /// The attribute sits on an item kind it does not support.
    UnsupportedItemKind,
    /// A lookup expected from the scanner's table is absent.
    MissingBuildStep,
}

/// The scanner's whole run over an already-parsed file set: extracts every
/// declaration and resolves the chains into the predicate table. The table
/// is a function of the items alone; the first malformed attribute aborts
/// the run instead.
pub fn build_table(items: &Vec<SourceItem>) -> (r: Result<PredicateTable, OverrideError>)
    ensures
        match r {
            Ok(t) => spec_extract(item_views(items@)) is Ok && t@ == spec_resolve(
                spec_extract(item_views(items@)).unwrap(),
            ),
            Err(e) => spec_extract(item_views(items@)) == Err::<ExtractionView, OverrideError>(e),
        },
{
    match extract(items) {
        Err(e) => Err(e),
        Ok(ex) => Ok(resolve(&ex)),
    }
}

} // verus!
