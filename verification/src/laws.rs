//! Laws that relate the components of a cascade pass.

use vstd::prelude::*;
use crate::toks::{Tok, TokKind, Bracket, concat_texts};
use crate::table::assoc_map;
use crate::cascade::BorrowedValue;
use crate::scan::{scan_from, spec_parse};
use crate::subst::{
    spec_sub_one,
    spec_sub_block,
    spec_sub_var,
    spec_sub_resolved,
    spec_sub_fallback,
    spec_sub_fallback_body,
    finish_state,
    spec_finish,
    sub_budget,
};

verus! {

/// Whether a token is the start of a `var(` call.
pub open spec fn is_var_tok(tk: Tok) -> bool {
    tk.kind matches TokKind::Function(n) && n@ == "var"@
}

pub proof fn lemma_scan_no_var(t: Seq<Tok>, i: int, closer: Option<Bracket>)
    requires
        forall|k: int| 0 <= k < t.len() ==> !is_var_tok(t[k]),
    ensures
        scan_from(t, i, closer) matches Some(p) ==> p.1 =~= Set::<Seq<char>>::empty(),
    decreases t.len() - i,
{
    if 0 <= i < t.len() {
        match t[i].kind {
            TokKind::Function(name) => {
                assert(!is_var_tok(t[i]));
                lemma_scan_no_var(t, i + 1, Some(Bracket::Paren));
                let sub = scan_from(t, i + 1, Some(Bracket::Paren));
                if sub is Some {
                    let j = sub.unwrap().0;
                    if i + 1 <= j && j <= t.len() {
                        lemma_scan_no_var(t, j, closer);
                    }
                }
            },
            TokKind::Open(b) => {
                lemma_scan_no_var(t, i + 1, Some(b));
                let sub = scan_from(t, i + 1, Some(b));
                if sub is Some {
                    let j = sub.unwrap().0;
                    if i + 1 <= j && j <= t.len() {
                        lemma_scan_no_var(t, j, closer);
                    }
                }
            },
            _ => {
                lemma_scan_no_var(t, i + 1, closer);
            },
        }
    }
}

/// A value without a `var(` token scans to itself: the captured text is the
/// verbatim token text, and the reference set is empty.
pub proof fn lemma_parse_no_var(t: Seq<Tok>)
    requires
        forall|k: int| 0 <= k < t.len() ==> !is_var_tok(t[k]),
    ensures
        spec_parse(t) matches Some(p) ==> p.0 == concat_texts(t) && p.1 =~= Set::<
            Seq<char>,
        >::empty(),
{
    lemma_scan_no_var(t, 0, None);
}

/// Every name the memo map gains during substitution is bound in the
/// working map.
pub open spec fn dom_bounded(
    entries: Seq<(String, BorrowedValue)>,
    memo: Map<Seq<char>, Seq<char>>,
) -> bool {
    forall|k: Seq<char>| memo.contains_key(k) ==> assoc_map(entries).contains_key(k)
}

pub proof fn lemma_sub_one_dom(
    entries: Seq<(String, BorrowedValue)>,
    name: Seq<char>,
    memo: Map<Seq<char>, Seq<char>>,
    invalid: Set<Seq<char>>,
    fuel: nat,
)
    requires
        dom_bounded(entries, memo),
    ensures
        dom_bounded(entries, spec_sub_one(entries, name, memo, invalid, fuel).1),
    decreases fuel, 0int, 0int,
{
    if !memo.contains_key(name) && !invalid.contains(name) {
        let m = assoc_map(entries);
        if m.contains_key(name) && m[name].references is Some
            && m[name].references.unwrap().items@.len() > 0 && fuel > 0 {
            let toks = crate::toks::css_tokens(m[name].value@);
            lemma_sub_block_dom(entries, toks, 0, false, 0, memo, invalid, (fuel - 1) as nat);
        }
    }
}

pub proof fn lemma_sub_block_dom(
    entries: Seq<(String, BorrowedValue)>,
    t: Seq<Tok>,
    i: int,
    stop_at_close: bool,
    depth: int,
    memo: Map<Seq<char>, Seq<char>>,
    invalid: Set<Seq<char>>,
    fuel: nat,
)
    requires
        dom_bounded(entries, memo),
    ensures
        dom_bounded(
            entries,
            spec_sub_block(entries, t, i, stop_at_close, depth, memo, invalid, fuel).1,
        ),
    decreases fuel, t.len() - i, 1int,
{
    if 0 <= i < t.len() {
        match t[i].kind {
            TokKind::Function(name) => {
                if name@ == "var"@ {
                    lemma_sub_var_dom(entries, t, i + 1, memo, invalid, fuel);
                    let (res, memo1, inv1) = spec_sub_var(entries, t, i + 1, memo, invalid, fuel);
                    if res is Some {
                        let j = res.unwrap().0;
                        if i + 1 <= j && j <= t.len() {
                            lemma_sub_block_dom(
                                entries,
                                t,
                                j,
                                stop_at_close,
                                depth,
                                memo1,
                                inv1,
                                fuel,
                            );
                        }
                    }
                } else {
                    lemma_sub_block_dom(
                        entries,
                        t,
                        i + 1,
                        stop_at_close,
                        depth + 1,
                        memo,
                        invalid,
                        fuel,
                    );
                }
            },
            TokKind::Open(_) => {
                lemma_sub_block_dom(
                    entries,
                    t,
                    i + 1,
                    stop_at_close,
                    depth + 1,
                    memo,
                    invalid,
                    fuel,
                );
            },
            TokKind::Close(_) => {
                if !(depth == 0 && stop_at_close) {
                    let nd: int = if depth > 0 {
                        depth - 1
                    } else {
                        0
                    };
                    lemma_sub_block_dom(entries, t, i + 1, stop_at_close, nd, memo, invalid, fuel);
                }
            },
            _ => {
                lemma_sub_block_dom(entries, t, i + 1, stop_at_close, depth, memo, invalid, fuel);
            },
        }
    }
}

pub proof fn lemma_sub_var_dom(
    entries: Seq<(String, BorrowedValue)>,
    t: Seq<Tok>,
    i: int,
    memo: Map<Seq<char>, Seq<char>>,
    invalid: Set<Seq<char>>,
    fuel: nat,
)
    requires
        dom_bounded(entries, memo),
    ensures
        dom_bounded(entries, spec_sub_var(entries, t, i, memo, invalid, fuel).1),
    decreases fuel, t.len() - i, 3int,
{
    if 0 <= i < t.len() {
        match t[i].kind {
            TokKind::Space => {
                lemma_sub_var_dom(entries, t, i + 1, memo, invalid, fuel);
            },
            TokKind::Ident(name) => {
                if name@.len() >= 2 && name@[0] == '-' && name@[1] == '-' {
                    lemma_sub_resolved_dom(
                        entries,
                        t,
                        i + 1,
                        name@.subrange(2, name@.len() as int),
                        memo,
                        invalid,
                        fuel,
                    );
                }
            },
            _ => {},
        }
    }
}

pub proof fn lemma_sub_resolved_dom(
    entries: Seq<(String, BorrowedValue)>,
    t: Seq<Tok>,
    i: int,
    rv: Seq<char>,
    memo: Map<Seq<char>, Seq<char>>,
    invalid: Set<Seq<char>>,
    fuel: nat,
)
    requires
        dom_bounded(entries, memo),
    ensures
        dom_bounded(entries, spec_sub_resolved(entries, t, i, rv, memo, invalid, fuel).1),
    decreases fuel, t.len() - i, 2int,
{
    if 0 <= i <= t.len() {
        if assoc_map(entries).contains_key(rv) {
            lemma_sub_one_dom(entries, rv, memo, invalid, fuel);
        } else {
            lemma_sub_fallback_dom(entries, t, i, memo, invalid, fuel);
        }
    }
}

pub proof fn lemma_sub_fallback_dom(
    entries: Seq<(String, BorrowedValue)>,
    t: Seq<Tok>,
    i: int,
    memo: Map<Seq<char>, Seq<char>>,
    invalid: Set<Seq<char>>,
    fuel: nat,
)
    requires
        dom_bounded(entries, memo),
    ensures
        dom_bounded(entries, spec_sub_fallback(entries, t, i, memo, invalid, fuel).1),
    decreases fuel, t.len() - i, 1int,
{
    if 0 <= i < t.len() {
        match t[i].kind {
            TokKind::Space => {
                lemma_sub_fallback_dom(entries, t, i + 1, memo, invalid, fuel);
            },
            TokKind::Comma => {
                lemma_sub_fallback_body_dom(entries, t, i + 1, memo, invalid, fuel);
            },
            _ => {},
        }
    }
}

pub proof fn lemma_sub_fallback_body_dom(
    entries: Seq<(String, BorrowedValue)>,
    t: Seq<Tok>,
    i: int,
    memo: Map<Seq<char>, Seq<char>>,
    invalid: Set<Seq<char>>,
    fuel: nat,
)
    requires
        dom_bounded(entries, memo),
    ensures
        dom_bounded(entries, spec_sub_fallback_body(entries, t, i, memo, invalid, fuel).1),
    decreases fuel, t.len() - i, 2int,
{
    if 0 <= i <= t.len() {
        if i < t.len() && t[i].kind is Space {
            lemma_sub_fallback_body_dom(entries, t, i + 1, memo, invalid, fuel);
        } else {
            lemma_sub_block_dom(entries, t, i, true, 0, memo, invalid, fuel);
        }
    }
}

pub proof fn lemma_finish_state_dom(entries: Seq<(String, BorrowedValue)>, idx: int)
    ensures
        dom_bounded(entries, finish_state(entries, idx).0),
    decreases idx,
{
    if idx > 0 {
        lemma_finish_state_dom(entries, idx - 1);
        let (memo, inv) = finish_state(entries, idx - 1);
        lemma_sub_one_dom(
            entries,
            entries[idx - 1].0@,
            memo,
            inv,
            sub_budget(entries.len() as nat),
        );
    }
}

/// A name bound by no entry of the working map is absent from the finished
/// baseline. In particular, a name whose highest-priority declaration reset
/// it to its initial value was removed from the working map, so the new
/// baseline lacks it even where the inherited baseline had it.
pub proof fn lemma_finish_absent(entries: Seq<(String, BorrowedValue)>, name: Seq<char>)
    requires
        !assoc_map(entries).contains_key(name),
    ensures
        !spec_finish(entries).contains_key(name),
{
    lemma_finish_state_dom(entries, entries.len() as int);
}

} // verus!
