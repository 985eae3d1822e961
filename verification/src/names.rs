//! The deterministic encoding of the scanner-to-rewriter protocol: the
//! signature of an identity key, the conditional-compilation predicate
//! names, the environment entry names, the invert-decorated flag names with
//! their space-joined accept list, and the generated identifiers a flag
//! variant and its dispatcher entry are renamed to.

use vstd::prelude::*;

use crate::keys::ItemKey;
use crate::keys::KeyView;
use crate::resolve::FlagId;
use crate::resolve::FlagIdView;
use crate::resolve::Predicate;
use crate::resolve::PredicateView;
use crate::text::chars_of;

verus! {

/// The decimal digit character of `d`.
pub open spec fn digit_char(d: int) -> char {
    ((48 + d) as u8) as char
}

/// The decimal rendering of a non-negative integer, most significant digit
/// first, without leading zeros.
pub open spec fn dec_rep(n: int) -> Seq<char>
    decreases n,
{
    if 0 <= n < 10 {
        seq![digit_char(n)]
    } else if n >= 10 {
        dec_rep(n / 10).push(digit_char(n % 10))
    } else {
        Seq::empty()
    }
}

/// Renders a `u32` in decimal.
pub fn dec_chars(n: u32) -> (r: Vec<char>)
    ensures
        r@ == dec_rep(n as int),
    decreases n,
{
    let d = ((48 + (n % 10)) as u8) as char;
    if n < 10 {
        let mut r: Vec<char> = Vec::new();
        r.push(d);
        proof {
            assert(r@ =~= seq![digit_char(n as int)]);
        }
        r
    } else {
        let mut r = dec_chars(n / 10);
        r.push(d);
        r
    }
}

/// Renders a `u64` in decimal.
pub fn dec_chars_u64(n: u64) -> (r: Vec<char>)
    ensures
        r@ == dec_rep(n as int),
    decreases n,
{
    let d = ((48 + (n % 10)) as u8) as char;
    if n < 10 {
        let mut r: Vec<char> = Vec::new();
        r.push(d);
        proof {
            assert(r@ =~= seq![digit_char(n as int)]);
        }
        r
    } else {
        let mut r = dec_chars_u64(n / 10);
        r.push(d);
        r
    }
}

/// Appends the characters of `src` to `dst`.
pub fn append_chars(dst: &mut Vec<char>, src: &Vec<char>) -> (u: ())
    ensures
        final(dst)@ == old(dst)@ + src@,
{
    let mut i: usize = 0;
    proof {
        assert(dst@ =~= old(dst)@ + src@.take(0));
    }
    while i < src.len()
        invariant
            i <= src@.len(),
            dst@ == old(dst)@ + src@.take(i as int),
        decreases src@.len() - i,
    {
        dst.push(src[i]);
        proof {
            assert(old(dst)@ + src@.take(i + 1) =~= (old(dst)@ + src@.take(i as int)).push(
                src@[i as int],
            ));
        }
        i += 1;
    }
    proof {
        assert(src@.take(src@.len() as int) =~= src@);
    }
}

/// Appends the characters of a string slice to `dst`.
pub fn append_str(dst: &mut Vec<char>, s: &str) -> (u: ())
    ensures
        final(dst)@ == old(dst)@ + s@,
{
    let cs = chars_of(s);
    append_chars(dst, &cs);
}

/// The signature encoding of an identity key: the item kind, the owning
/// type's name for impl members, and the item's name, joined by underscores.
pub open spec fn spec_sig(k: KeyView) -> Seq<char> {
    match k {
        KeyView::Func { name } => "func_"@ + name,
        KeyView::Method { owner, name } => "method_"@ + owner + "_"@ + name,
        KeyView::ImplConst { owner, name } => "implconst_"@ + owner + "_"@ + name,
    }
}

/// Encodes an identity key's signature.
pub fn sig_chars(k: &ItemKey) -> (r: Vec<char>)
    ensures
        r@ == spec_sig(k@),
{
    let mut r: Vec<char> = Vec::new();
    match k {
        ItemKey::Func { name } => {
            append_str(&mut r, "func_");
            append_chars(&mut r, name);
            proof {
                assert(r@ =~= "func_"@ + name@);
            }
        },
        ItemKey::Method { owner, name } => {
            append_str(&mut r, "method_");
            append_chars(&mut r, owner);
            append_str(&mut r, "_");
            append_chars(&mut r, name);
            proof {
                assert(r@ =~= "method_"@ + owner@ + "_"@ + name@);
            }
        },
        ItemKey::ImplConst { owner, name } => {
            append_str(&mut r, "implconst_");
            append_chars(&mut r, owner);
            append_str(&mut r, "_");
            append_chars(&mut r, name);
            proof {
                assert(r@ =~= "implconst_"@ + owner@ + "_"@ + name@);
            }
        },
    }
    r
}

/// The invert-decorated flag name: `i_` before an inverted flag's name, a
/// plain `_` before any other.
pub open spec fn spec_decorated(id: FlagIdView) -> Seq<char> {
    if id.invert {
        "i_"@ + id.name
    } else {
        "_"@ + id.name
    }
}

/// Encodes a decorated flag name.
pub fn decorated_chars(id: &FlagId) -> (r: Vec<char>)
    ensures
        r@ == spec_decorated(id@),
{
    let mut r: Vec<char> = Vec::new();
    if id.invert {
        append_str(&mut r, "i_");
    } else {
        append_str(&mut r, "_");
    }
    append_chars(&mut r, &id.name);
    r
}

/// The name of an exclusion predicate: priority and signature for an
/// override candidate, with the decorated flag name in between for a flag
/// candidate.
pub open spec fn spec_predicate_name(p: PredicateView) -> Seq<char> {
    match p.flag {
        None => "__override_priority_"@ + dec_rep(p.priority as int) + "_"@ + spec_sig(p.key),
        Some(id) => "__override_priority_"@ + dec_rep(p.priority as int) + "_flag_"@
            + spec_decorated(id) + "_"@ + spec_sig(p.key),
    }
}

/// Encodes an exclusion predicate's name.
pub fn predicate_name_chars(p: &Predicate) -> (r: Vec<char>)
    ensures
        r@ == spec_predicate_name(p@),
{
    let mut r: Vec<char> = Vec::new();
    append_str(&mut r, "__override_priority_");
    let digits = dec_chars(p.priority);
    append_chars(&mut r, &digits);
    match &p.flag {
        None => {
            append_str(&mut r, "_");
            let sig = sig_chars(&p.key);
            append_chars(&mut r, &sig);
            proof {
                assert(r@ =~= "__override_priority_"@ + dec_rep(p.priority as int) + "_"@
                    + spec_sig(p.key@));
            }
        },
        Some(id) => {
            append_str(&mut r, "_flag_");
            let dec = decorated_chars(id);
            append_chars(&mut r, &dec);
            append_str(&mut r, "_");
            let sig = sig_chars(&p.key);
            append_chars(&mut r, &sig);
            proof {
                assert(r@ =~= "__override_priority_"@ + dec_rep(p.priority as int) + "_flag_"@
                    + spec_decorated(id@) + "_"@ + spec_sig(p.key@));
            }
        },
    }
    r
}

/// The name of a final marker's required-priority entry.
pub open spec fn spec_final_env(k: KeyView) -> Seq<char> {
    "__override_final_"@ + spec_sig(k)
}

/// Encodes a final entry's name.
pub fn final_env_chars(k: &ItemKey) -> (r: Vec<char>)
    ensures
        r@ == spec_final_env(k@),
{
    let mut r: Vec<char> = Vec::new();
    append_str(&mut r, "__override_final_");
    let sig = sig_chars(k);
    append_chars(&mut r, &sig);
    r
}

/// The name of an item's accepted-flags entry.
pub open spec fn spec_acceptflags_env(k: KeyView) -> Seq<char> {
    "__override_acceptflags_"@ + spec_sig(k)
}

/// Encodes an accepted-flags entry's name.
pub fn acceptflags_env_chars(k: &ItemKey) -> (r: Vec<char>)
    ensures
        r@ == spec_acceptflags_env(k@),
{
    let mut r: Vec<char> = Vec::new();
    append_str(&mut r, "__override_acceptflags_");
    let sig = sig_chars(k);
    append_chars(&mut r, &sig);
    r
}

/// The space-joined decorated flag names of an accept list, in dispatch
/// order.
pub open spec fn spec_accept_list(ids: Seq<FlagIdView>) -> Seq<char>
    decreases ids.len(),
{
    if ids.len() == 0 {
        Seq::empty()
    } else if ids.len() == 1 {
        spec_decorated(ids[0])
    } else {
        spec_accept_list(ids.drop_last()) + " "@ + spec_decorated(ids.last())
    }
}

/// Encodes an accept list.
pub fn accept_list_chars(ids: &Vec<FlagId>) -> (r: Vec<char>)
    ensures
        r@ == spec_accept_list(crate::resolve::flag_id_views(ids@)),
{
    let ghost gids = crate::resolve::flag_id_views(ids@);
    let mut r: Vec<char> = Vec::new();
    let mut i: usize = 0;
    proof {
        assert(gids.take(0) =~= Seq::<FlagIdView>::empty());
        assert(r@ =~= spec_accept_list(gids.take(0)));
    }
    while i < ids.len()
        invariant
            i <= ids@.len(),
            gids == crate::resolve::flag_id_views(ids@),
            r@ == spec_accept_list(gids.take(i as int)),
        decreases ids@.len() - i,
    {
        proof {
            assert(gids.take(i + 1).drop_last() =~= gids.take(i as int));
            assert(gids.take(i + 1).last() == gids[i as int]);
            assert(gids[i as int] == ids@[i as int]@);
        }
        if i > 0 {
            append_str(&mut r, " ");
        }
        let dec = decorated_chars(&ids[i]);
        append_chars(&mut r, &dec);
        proof {
            if i == 0 {
                assert(r@ =~= spec_decorated(gids[0]));
                assert(gids.take(1).len() == 1);
            } else {
                assert(r@ =~= spec_accept_list(gids.take(i as int)) + " "@ + spec_decorated(
                    gids[i as int],
                ));
            }
        }
        i += 1;
    }
    proof {
        assert(gids.take(gids.len() as int) =~= gids);
    }
    r
}

/// The generated name a flag variant is renamed to, out of the dispatcher's
/// way.
pub open spec fn spec_flagext(flag: Seq<char>, name: Seq<char>) -> Seq<char> {
    "__override_flagext_"@ + flag + "_"@ + name
}

/// Encodes a flag variant's generated name.
pub fn flagext_chars(flag: &Vec<char>, name: &Vec<char>) -> (r: Vec<char>)
    ensures
        r@ == spec_flagext(flag@, name@),
{
    let mut r: Vec<char> = Vec::new();
    append_str(&mut r, "__override_flagext_");
    append_chars(&mut r, flag);
    append_str(&mut r, "_");
    append_chars(&mut r, name);
    proof {
        assert(r@ =~= "__override_flagext_"@ + flag@ + "_"@ + name@);
    }
    r
}

/// The generated name the plain implementation is renamed to when a
/// dispatcher takes over its original name.
pub open spec fn spec_flagentry(name: Seq<char>) -> Seq<char> {
    "__override_flagentry_"@ + name
}

/// Encodes the dispatcher fall-through's generated name.
pub fn flagentry_chars(name: &Vec<char>) -> (r: Vec<char>)
    ensures
        r@ == spec_flagentry(name@),
{
    let mut r: Vec<char> = Vec::new();
    append_str(&mut r, "__override_flagentry_");
    append_chars(&mut r, name);
    r
}

} // verus!
