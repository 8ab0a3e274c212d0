//! The substitution evaluator.
//!
//! `finish_cascade` resolves every name of the working map to its final
//! text: `var()` calls are replaced by the referenced name's resolved text,
//! or by the substituted fallback when the referenced name is absent from
//! the map altogether. Results are memoized per name; a name that is
//! invalid (cyclic, or whose resolution failed) yields no entry. A pass
//! that declared nothing returns the inherited baseline itself, shared.
//!
//! Resolution carries a step budget that shrinks each time one name's
//! resolution descends into another's. Each descending step resolves a
//! distinct name that is present, not yet memoized and not marked invalid
//! (cycles were excluded beforehand), so the budget `finish_cascade` hands
//! out (one more than the number of entries) exceeds any reachable depth
//! and never cuts a resolution short.

use vstd::prelude::*;
use std::sync::Arc;
use crate::toks::{Tok, TokKind, css_tokens, tokenize};
use crate::table::{NameSet, NameTable, assoc_map};
use crate::cascade::{BorrowedValue, arc_clone};
use crate::cycles::{find_cycles, spec_find_cycles};

verus! {

/// The views of a map of resolved texts.
pub open spec fn text_map(m: Map<Seq<char>, String>) -> Map<Seq<char>, Seq<char>> {
    Map::new(|k: Seq<char>| m.dom().contains(k), |k: Seq<char>| m[k]@)
}

pub proof fn lemma_text_map_insert(m: Map<Seq<char>, String>, k: Seq<char>, v: String)
    ensures
        text_map(m.insert(k, v)) == text_map(m).insert(k, v@),
{
    assert(text_map(m.insert(k, v)) =~= text_map(m).insert(k, v@));
}

/// The position after the closing token of the block the position `i` is
/// inside of (the end of the input closes every open block).
pub open spec fn skip_past_close(t: Seq<Tok>, i: int) -> int
    decreases t.len() - i,
{
    if i < 0 || i >= t.len() {
        t.len() as int
    } else {
        match t[i].kind {
            TokKind::Close(_) => i + 1,
            TokKind::Open(_) => {
                let j = skip_past_close(t, i + 1);
                if i + 1 <= j && j <= t.len() {
                    skip_past_close(t, j)
                } else {
                    t.len() as int
                }
            },
            TokKind::Function(_) => {
                let j = skip_past_close(t, i + 1);
                if i + 1 <= j && j <= t.len() {
                    skip_past_close(t, j)
                } else {
                    t.len() as int
                }
            },
            _ => skip_past_close(t, i + 1),
        }
    }
}

/// Resolves `name` against the working map: a memoized text is returned as
/// is; an invalid name fails; a value without references is its raw text;
/// otherwise its tokens are substituted. The result is the resolved text
/// (`None` on failure) with the memo map and the invalid set it leaves.
pub open spec fn spec_sub_one(
    entries: Seq<(String, BorrowedValue)>,
    name: Seq<char>,
    memo: Map<Seq<char>, Seq<char>>,
    invalid: Set<Seq<char>>,
    fuel: nat,
) -> (Option<Seq<char>>, Map<Seq<char>, Seq<char>>, Set<Seq<char>>)
    decreases fuel, 0int, 0int,
{
    if memo.contains_key(name) {
        (Some(memo[name]), memo, invalid)
    } else if invalid.contains(name) {
        (None, memo, invalid)
    } else {
        let m = assoc_map(entries);
        if !m.contains_key(name) {
            (None, memo, invalid)
        } else if m[name].references is Some && m[name].references.unwrap().items@.len() > 0 {
            if fuel == 0 {
                (None, memo, invalid)
            } else {
                let toks = css_tokens(m[name].value@);
                let (res, memo1, inv1) = spec_sub_block(
                    entries,
                    toks,
                    0,
                    false,
                    0,
                    memo,
                    invalid,
                    (fuel - 1) as nat,
                );
                match res {
                    None => (None, memo1, inv1.insert(name)),
                    Some((end, emitted)) => (Some(emitted), memo1.insert(name, emitted), inv1),
                }
            }
        } else {
            let text = m[name].value@;
            (Some(text), memo.insert(name, text), invalid)
        }
    }
}

/// Substitutes the tokens from `i` on, emitting literal text verbatim and
/// replacing each `var()` call. With `stop_at_close` the walk ends at the
/// first unmatched closing token, consuming but not emitting it (the walk
/// is then inside a `var()` call whose closer is not part of the output).
pub open spec fn spec_sub_block(
    entries: Seq<(String, BorrowedValue)>,
    t: Seq<Tok>,
    i: int,
    stop_at_close: bool,
    depth: int,
    memo: Map<Seq<char>, Seq<char>>,
    invalid: Set<Seq<char>>,
    fuel: nat,
) -> (Option<(int, Seq<char>)>, Map<Seq<char>, Seq<char>>, Set<Seq<char>>)
    decreases fuel, t.len() - i, 1int,
{
    if i < 0 {
        (None, memo, invalid)
    } else if i >= t.len() {
        (Some((t.len() as int, Seq::empty())), memo, invalid)
    } else {
        match t[i].kind {
            TokKind::Function(name) => {
                if name@ == "var"@ {
                    let (res, memo1, inv1) = spec_sub_var(entries, t, i + 1, memo, invalid, fuel);
                    match res {
                        None => (None, memo1, inv1),
                        Some((j, emitted)) => if i + 1 <= j && j <= t.len() {
                            let (res2, memo2, inv2) = spec_sub_block(
                                entries,
                                t,
                                j,
                                stop_at_close,
                                depth,
                                memo1,
                                inv1,
                                fuel,
                            );
                            match res2 {
                                None => (None, memo2, inv2),
                                Some((end, em2)) => (Some((end, emitted + em2)), memo2, inv2),
                            }
                        } else {
                            (None, memo1, inv1)
                        },
                    }
                } else {
                    let (res2, memo2, inv2) = spec_sub_block(
                        entries,
                        t,
                        i + 1,
                        stop_at_close,
                        depth + 1,
                        memo,
                        invalid,
                        fuel,
                    );
                    match res2 {
                        None => (None, memo2, inv2),
                        Some((end, em)) => (Some((end, t[i].text@ + em)), memo2, inv2),
                    }
                }
            },
            TokKind::Open(_) => {
                let (res2, memo2, inv2) = spec_sub_block(
                    entries,
                    t,
                    i + 1,
                    stop_at_close,
                    depth + 1,
                    memo,
                    invalid,
                    fuel,
                );
                match res2 {
                    None => (None, memo2, inv2),
                    Some((end, em)) => (Some((end, t[i].text@ + em)), memo2, inv2),
                }
            },
            TokKind::Close(_) => {
                if depth == 0 && stop_at_close {
                    (Some((i + 1, Seq::empty())), memo, invalid)
                } else {
                    let nd: int = if depth > 0 {
                        depth - 1
                    } else {
                        0
                    };
                    let (res2, memo2, inv2) = spec_sub_block(
                        entries,
                        t,
                        i + 1,
                        stop_at_close,
                        nd,
                        memo,
                        invalid,
                        fuel,
                    );
                    match res2 {
                        None => (None, memo2, inv2),
                        Some((end, em)) => (Some((end, t[i].text@ + em)), memo2, inv2),
                    }
                }
            },
            _ => {
                let (res2, memo2, inv2) = spec_sub_block(
                    entries,
                    t,
                    i + 1,
                    stop_at_close,
                    depth,
                    memo,
                    invalid,
                    fuel,
                );
                match res2 {
                    None => (None, memo2, inv2),
                    Some((end, em)) => (Some((end, t[i].text@ + em)), memo2, inv2),
                }
            },
        }
    }
}

/// The inside of a `var(` call at substitution time: blanks, then the
/// `--`-prefixed identifier naming the reference.
pub open spec fn spec_sub_var(
    entries: Seq<(String, BorrowedValue)>,
    t: Seq<Tok>,
    i: int,
    memo: Map<Seq<char>, Seq<char>>,
    invalid: Set<Seq<char>>,
    fuel: nat,
) -> (Option<(int, Seq<char>)>, Map<Seq<char>, Seq<char>>, Set<Seq<char>>)
    decreases fuel, t.len() - i, 3int,
{
    if i < 0 || i >= t.len() {
        (None, memo, invalid)
    } else {
        match t[i].kind {
            TokKind::Space => spec_sub_var(entries, t, i + 1, memo, invalid, fuel),
            TokKind::Ident(name) => if name@.len() >= 2 && name@[0] == '-' && name@[1] == '-' {
                spec_sub_resolved(
                    entries,
                    t,
                    i + 1,
                    name@.subrange(2, name@.len() as int),
                    memo,
                    invalid,
                    fuel,
                )
            } else {
                (None, memo, invalid)
            },
            _ => (None, memo, invalid),
        }
    }
}

/// After the referenced name `rv`: a present name is resolved (its
/// resolved text replaces the whole call and any fallback is discarded;
/// its failure fails the whole value); an absent name requires a comma and
/// a fallback, which is substituted in place of the call.
pub open spec fn spec_sub_resolved(
    entries: Seq<(String, BorrowedValue)>,
    t: Seq<Tok>,
    i: int,
    rv: Seq<char>,
    memo: Map<Seq<char>, Seq<char>>,
    invalid: Set<Seq<char>>,
    fuel: nat,
) -> (Option<(int, Seq<char>)>, Map<Seq<char>, Seq<char>>, Set<Seq<char>>)
    decreases fuel, t.len() - i, 2int,
{
    if i < 0 || i > t.len() {
        (None, memo, invalid)
    } else if assoc_map(entries).contains_key(rv) {
        let (res, memo1, inv1) = spec_sub_one(entries, rv, memo, invalid, fuel);
        match res {
            None => (None, memo1, inv1),
            Some(text) => (Some((skip_past_close(t, i), text)), memo1, inv1),
        }
    } else {
        spec_sub_fallback(entries, t, i, memo, invalid, fuel)
    }
}

/// The fallback of a `var()` whose reference is absent: blanks, a comma,
/// then the fallback value substituted up to the call's closing token.
pub open spec fn spec_sub_fallback(
    entries: Seq<(String, BorrowedValue)>,
    t: Seq<Tok>,
    i: int,
    memo: Map<Seq<char>, Seq<char>>,
    invalid: Set<Seq<char>>,
    fuel: nat,
) -> (Option<(int, Seq<char>)>, Map<Seq<char>, Seq<char>>, Set<Seq<char>>)
    decreases fuel, t.len() - i, 1int,
{
    if i < 0 || i >= t.len() {
        (None, memo, invalid)
    } else {
        match t[i].kind {
            TokKind::Space => spec_sub_fallback(entries, t, i + 1, memo, invalid, fuel),
            TokKind::Comma => spec_sub_fallback_body(entries, t, i + 1, memo, invalid, fuel),
            _ => (None, memo, invalid),
        }
    }
}

/// The fallback value itself, after its comma: blanks before it are not
/// part of the output; the rest is substituted up to the call's closer.
pub open spec fn spec_sub_fallback_body(
    entries: Seq<(String, BorrowedValue)>,
    t: Seq<Tok>,
    i: int,
    memo: Map<Seq<char>, Seq<char>>,
    invalid: Set<Seq<char>>,
    fuel: nat,
) -> (Option<(int, Seq<char>)>, Map<Seq<char>, Seq<char>>, Set<Seq<char>>)
    decreases fuel, t.len() - i, 2int,
{
    if i < 0 || i > t.len() {
        (None, memo, invalid)
    } else if i < t.len() && t[i].kind is Space {
        spec_sub_fallback_body(entries, t, i + 1, memo, invalid, fuel)
    } else {
        spec_sub_block(entries, t, i, true, 0, memo, invalid, fuel)
    }
}

/// The resolution budget for a map.
pub open spec fn sub_budget(n: nat) -> nat {
    if n < usize::MAX {
        n + 1
    } else {
        usize::MAX as nat
    }
}

/// The (memo, invalid) state after attempting the first `idx` entry names,
/// starting from the cycle detector's invalid set.
pub open spec fn finish_state(entries: Seq<(String, BorrowedValue)>, idx: int) -> (
    Map<Seq<char>, Seq<char>>,
    Set<Seq<char>>,
)
    decreases idx,
{
    if idx <= 0 {
        (Map::empty(), spec_find_cycles(entries))
    } else {
        let (memo, inv) = finish_state(entries, idx - 1);
        let (res, memo1, inv1) = spec_sub_one(
            entries,
            entries[idx - 1].0@,
            memo,
            inv,
            sub_budget(entries.len() as nat),
        );
        (memo1, inv1)
    }
}

/// The substituted map that finishing a materialized working map yields.
pub open spec fn spec_finish(entries: Seq<(String, BorrowedValue)>) -> Map<Seq<char>, Seq<char>> {
    finish_state(entries, entries.len() as int).0
}

fn skip_past(toks: &Vec<Tok>, i: usize) -> (r: usize)
    requires
        i <= toks@.len(),
    ensures
        r as int == skip_past_close(toks@, i as int),
        i <= r <= toks@.len(),
    decreases toks@.len() - i,
{
    if i >= toks.len() {
        return toks.len();
    }
    match &toks[i].kind {
        TokKind::Close(_) => i + 1,
        TokKind::Open(_) => {
            let j = skip_past(toks, i + 1);
            skip_past(toks, j)
        },
        TokKind::Function(_) => {
            let j = skip_past(toks, i + 1);
            skip_past(toks, j)
        },
        _ => skip_past(toks, i + 1),
    }
}

fn substitute_one(
    map: &NameTable<BorrowedValue>,
    name: &String,
    out: &mut String,
    memo: &mut NameTable<String>,
    invalid: &mut NameSet,
    fuel: usize,
) -> (r: Result<(), ()>)
    requires
        old(memo).wf(),
    ensures
        final(memo).wf(),
        ({
            let (res, m2, i2) = spec_sub_one(
                map.entries@,
                name@,
                text_map(old(memo).as_map()),
                old(invalid).as_set(),
                fuel as nat,
            );
            text_map(final(memo).as_map()) == m2 && final(invalid).as_set() == i2 && (match r {
                Ok(_) => res matches Some(text) && final(out)@ == old(out)@ + text,
                Err(_) => res is None,
            })
        }),
    decreases fuel, 0int, 0int,
{
    let cached = match memo.get(name) {
        Some(c) => Some(c.clone()),
        None => None,
    };
    if let Some(c) = cached {
        out.append(c.as_str());
        return Ok(());
    }
    if invalid.contains(name) {
        return Err(());
    }
    let value = match map.get(name) {
        Some(v) => v,
        None => {
            return Err(());
        },
    };
    let has_refs = match &value.references {
        Some(r) => r.items.len() > 0,
        None => false,
    };
    if has_refs {
        if fuel == 0 {
            return Err(());
        }
        let toks = tokenize(value.value.as_str());
        let mut substituted = String::new();
        match subst_block(map, &toks, 0, false, 0, &mut substituted, memo, invalid, fuel - 1) {
            Ok(_) => {
                out.append(substituted.as_str());
                let ghost m1 = memo.as_map();
                memo.insert(name.clone(), substituted);
                proof {
                    lemma_text_map_insert(m1, name@, final(memo).as_map()[name@]);
                }
                Ok(())
            },
            Err(_) => {
                invalid.insert(name.clone());
                Err(())
            },
        }
    } else {
        let text = value.value.clone();
        out.append(text.as_str());
        let ghost m1 = memo.as_map();
        memo.insert(name.clone(), text);
        proof {
            lemma_text_map_insert(m1, name@, final(memo).as_map()[name@]);
        }
        Ok(())
    }
}

fn subst_block(
    map: &NameTable<BorrowedValue>,
    toks: &Vec<Tok>,
    i: usize,
    stop_at_close: bool,
    depth: usize,
    out: &mut String,
    memo: &mut NameTable<String>,
    invalid: &mut NameSet,
    fuel: usize,
) -> (r: Result<usize, ()>)
    requires
        i <= toks@.len(),
        depth <= i,
        old(memo).wf(),
    ensures
        final(memo).wf(),
        ({
            let (res, m2, i2) = spec_sub_block(
                map.entries@,
                toks@,
                i as int,
                stop_at_close,
                depth as int,
                text_map(old(memo).as_map()),
                old(invalid).as_set(),
                fuel as nat,
            );
            text_map(final(memo).as_map()) == m2 && final(invalid).as_set() == i2 && (match r {
                Ok(j) => i <= j <= toks@.len() && (res matches Some(p) && p.0 == j as int && final(out)@ == old(out)@ + p.1),
                Err(_) => res is None,
            })
        }),
    decreases fuel, toks@.len() - i, 1int,
{
    if i >= toks.len() {
        proof {
            assert(old(out)@ + Seq::<char>::empty() =~= old(out)@);
        }
        return Ok(toks.len());
    }
    let tk = &toks[i];
    match &tk.kind {
        TokKind::Function(name) => {
            if *name == "var".to_owned() {
                let j = match subst_var(map, toks, i + 1, out, memo, invalid, fuel) {
                    Ok(j) => j,
                    Err(_) => {
                        return Err(());
                    },
                };
                let ghost out1 = out@;
                let k = match subst_block(
                    map,
                    toks,
                    j,
                    stop_at_close,
                    depth,
                    out,
                    memo,
                    invalid,
                    fuel,
                ) {
                    Ok(k) => k,
                    Err(_) => {
                        return Err(());
                    },
                };
                proof {
                    let em1 = spec_sub_var(
                        map.entries@,
                        toks@,
                        i as int + 1,
                        text_map(old(memo).as_map()),
                        old(invalid).as_set(),
                        fuel as nat,
                    ).0.unwrap().1;
                    let em2 = spec_sub_block(
                        map.entries@,
                        toks@,
                        j as int,
                        stop_at_close,
                        depth as int,
                        spec_sub_var(
                            map.entries@,
                            toks@,
                            i as int + 1,
                            text_map(old(memo).as_map()),
                            old(invalid).as_set(),
                            fuel as nat,
                        ).1,
                        spec_sub_var(
                            map.entries@,
                            toks@,
                            i as int + 1,
                            text_map(old(memo).as_map()),
                            old(invalid).as_set(),
                            fuel as nat,
                        ).2,
                        fuel as nat,
                    ).0.unwrap().1;
                    assert((old(out)@ + em1) + em2 =~= old(out)@ + (em1 + em2));
                }
                Ok(k)
            } else {
                out.append(tk.text.as_str());
                let k = match subst_block(
                    map,
                    toks,
                    i + 1,
                    stop_at_close,
                    depth + 1,
                    out,
                    memo,
                    invalid,
                    fuel,
                ) {
                    Ok(k) => k,
                    Err(_) => {
                        return Err(());
                    },
                };
                proof {
                    let em = spec_sub_block(
                        map.entries@,
                        toks@,
                        i as int + 1,
                        stop_at_close,
                        depth as int + 1,
                        text_map(old(memo).as_map()),
                        old(invalid).as_set(),
                        fuel as nat,
                    ).0.unwrap().1;
                    assert((old(out)@ + tk.text@) + em =~= old(out)@ + (tk.text@ + em));
                }
                Ok(k)
            }
        },
        TokKind::Open(_) => {
            out.append(tk.text.as_str());
            let k = match subst_block(
                map,
                toks,
                i + 1,
                stop_at_close,
                depth + 1,
                out,
                memo,
                invalid,
                fuel,
            ) {
                Ok(k) => k,
                Err(_) => {
                    return Err(());
                },
            };
            proof {
                let em = spec_sub_block(
                    map.entries@,
                    toks@,
                    i as int + 1,
                    stop_at_close,
                    depth as int + 1,
                    text_map(old(memo).as_map()),
                    old(invalid).as_set(),
                    fuel as nat,
                ).0.unwrap().1;
                assert((old(out)@ + tk.text@) + em =~= old(out)@ + (tk.text@ + em));
            }
            Ok(k)
        },
        TokKind::Close(_) => {
            if depth == 0 && stop_at_close {
                proof {
                    assert(old(out)@ + Seq::<char>::empty() =~= old(out)@);
                }
                return Ok(i + 1);
            }
            let nd: usize = if depth > 0 {
                depth - 1
            } else {
                0
            };
            out.append(tk.text.as_str());
            let k = match subst_block(map, toks, i + 1, stop_at_close, nd, out, memo, invalid, fuel)
                {
                Ok(k) => k,
                Err(_) => {
                    return Err(());
                },
            };
            proof {
                let em = spec_sub_block(
                    map.entries@,
                    toks@,
                    i as int + 1,
                    stop_at_close,
                    nd as int,
                    text_map(old(memo).as_map()),
                    old(invalid).as_set(),
                    fuel as nat,
                ).0.unwrap().1;
                assert((old(out)@ + tk.text@) + em =~= old(out)@ + (tk.text@ + em));
            }
            Ok(k)
        },
        _ => {
            out.append(tk.text.as_str());
            let k = match subst_block(
                map,
                toks,
                i + 1,
                stop_at_close,
                depth,
                out,
                memo,
                invalid,
                fuel,
            ) {
                Ok(k) => k,
                Err(_) => {
                    return Err(());
                },
            };
            proof {
                let em = spec_sub_block(
                    map.entries@,
                    toks@,
                    i as int + 1,
                    stop_at_close,
                    depth as int,
                    text_map(old(memo).as_map()),
                    old(invalid).as_set(),
                    fuel as nat,
                ).0.unwrap().1;
                assert((old(out)@ + tk.text@) + em =~= old(out)@ + (tk.text@ + em));
            }
            Ok(k)
        },
    }
}

fn subst_var(
    map: &NameTable<BorrowedValue>,
    toks: &Vec<Tok>,
    i: usize,
    out: &mut String,
    memo: &mut NameTable<String>,
    invalid: &mut NameSet,
    fuel: usize,
) -> (r: Result<usize, ()>)
    requires
        i <= toks@.len(),
        old(memo).wf(),
    ensures
        final(memo).wf(),
        ({
            let (res, m2, i2) = spec_sub_var(
                map.entries@,
                toks@,
                i as int,
                text_map(old(memo).as_map()),
                old(invalid).as_set(),
                fuel as nat,
            );
            text_map(final(memo).as_map()) == m2 && final(invalid).as_set() == i2 && (match r {
                Ok(j) => i <= j <= toks@.len() && (res matches Some(p) && p.0 == j as int && final(out)@ == old(out)@ + p.1),
                Err(_) => res is None,
            })
        }),
    decreases fuel, toks@.len() - i, 3int,
{
    if i >= toks.len() {
        return Err(());
    }
    match &toks[i].kind {
        TokKind::Space => subst_var(map, toks, i + 1, out, memo, invalid, fuel),
        TokKind::Ident(name) => {
            let n = name.as_str().unicode_len();
            if n >= 2 && name.as_str().get_char(0) == '-' && name.as_str().get_char(1) == '-' {
                let stripped = name.as_str().substring_char(2, n).to_owned();
                subst_resolved(map, toks, i + 1, stripped, out, memo, invalid, fuel)
            } else {
                Err(())
            }
        },
        _ => Err(()),
    }
}

fn subst_resolved(
    map: &NameTable<BorrowedValue>,
    toks: &Vec<Tok>,
    i: usize,
    rv: String,
    out: &mut String,
    memo: &mut NameTable<String>,
    invalid: &mut NameSet,
    fuel: usize,
) -> (r: Result<usize, ()>)
    requires
        i <= toks@.len(),
        old(memo).wf(),
    ensures
        final(memo).wf(),
        ({
            let (res, m2, i2) = spec_sub_resolved(
                map.entries@,
                toks@,
                i as int,
                rv@,
                text_map(old(memo).as_map()),
                old(invalid).as_set(),
                fuel as nat,
            );
            text_map(final(memo).as_map()) == m2 && final(invalid).as_set() == i2 && (match r {
                Ok(j) => i <= j <= toks@.len() && (res matches Some(p) && p.0 == j as int && final(out)@ == old(out)@ + p.1),
                Err(_) => res is None,
            })
        }),
    decreases fuel, toks@.len() - i, 2int,
{
    if map.contains_key(&rv) {
        match substitute_one(map, &rv, out, memo, invalid, fuel) {
            Ok(_) => Ok(skip_past(toks, i)),
            Err(_) => Err(()),
        }
    } else {
        subst_fallback(map, toks, i, out, memo, invalid, fuel)
    }
}

fn subst_fallback(
    map: &NameTable<BorrowedValue>,
    toks: &Vec<Tok>,
    i: usize,
    out: &mut String,
    memo: &mut NameTable<String>,
    invalid: &mut NameSet,
    fuel: usize,
) -> (r: Result<usize, ()>)
    requires
        i <= toks@.len(),
        old(memo).wf(),
    ensures
        final(memo).wf(),
        ({
            let (res, m2, i2) = spec_sub_fallback(
                map.entries@,
                toks@,
                i as int,
                text_map(old(memo).as_map()),
                old(invalid).as_set(),
                fuel as nat,
            );
            text_map(final(memo).as_map()) == m2 && final(invalid).as_set() == i2 && (match r {
                Ok(j) => i <= j <= toks@.len() && (res matches Some(p) && p.0 == j as int && final(out)@ == old(out)@ + p.1),
                Err(_) => res is None,
            })
        }),
    decreases fuel, toks@.len() - i, 1int,
{
    if i >= toks.len() {
        return Err(());
    }
    match &toks[i].kind {
        TokKind::Space => subst_fallback(map, toks, i + 1, out, memo, invalid, fuel),
        TokKind::Comma => subst_fallback_body(map, toks, i + 1, out, memo, invalid, fuel),
        _ => Err(()),
    }
}

fn subst_fallback_body(
    map: &NameTable<BorrowedValue>,
    toks: &Vec<Tok>,
    i: usize,
    out: &mut String,
    memo: &mut NameTable<String>,
    invalid: &mut NameSet,
    fuel: usize,
) -> (r: Result<usize, ()>)
    requires
        i <= toks@.len(),
        old(memo).wf(),
    ensures
        final(memo).wf(),
        ({
            let (res, m2, i2) = spec_sub_fallback_body(
                map.entries@,
                toks@,
                i as int,
                text_map(old(memo).as_map()),
                old(invalid).as_set(),
                fuel as nat,
            );
            text_map(final(memo).as_map()) == m2 && final(invalid).as_set() == i2 && (match r {
                Ok(j) => i <= j <= toks@.len() && (res matches Some(p) && p.0 == j as int && final(out)@ == old(out)@ + p.1),
                Err(_) => res is None,
            })
        }),
    decreases fuel, toks@.len() - i, 2int,
{
    if i < toks.len() {
        match &toks[i].kind {
            TokKind::Space => {
                return subst_fallback_body(map, toks, i + 1, out, memo, invalid, fuel);
            },
            _ => {},
        }
    }
    subst_block(map, toks, i, true, 0, out, memo, invalid, fuel)
}

/// Finishes one cascade pass: detects cycles, substitutes every name of the
/// working map, and freezes the result as the new shared baseline. A pass
/// that was never materialized shares the inherited baseline itself, at the
/// cost of one reference-count increment.
pub fn finish_cascade(
    custom_properties: Option<NameTable<BorrowedValue>>,
    inherited_custom_properties: &Option<Arc<NameTable<String>>>,
) -> (r: Option<Arc<NameTable<String>>>)
    requires
        custom_properties matches Some(m) ==> m.wf(),
    ensures
        match custom_properties {
            Some(m) => r matches Some(out) && (*out).wf() && text_map((*out).as_map())
                == spec_finish(m.entries@),
            None => r == *inherited_custom_properties,
        },
{
    match custom_properties {
        Some(map) => {
            let mut invalid = find_cycles(&map);
            let mut memo: NameTable<String> = NameTable::new();
            let n = map.entries.len();
            let fuel: usize = if n < usize::MAX {
                n + 1
            } else {
                usize::MAX
            };
            let mut scratch = String::new();
            proof {
                assert(text_map(memo.as_map()) =~= Map::<Seq<char>, Seq<char>>::empty());
            }
            let mut i: usize = 0;
            while i < map.entries.len()
                invariant
                    i <= map.entries@.len(),
                    map.wf(),
                    memo.wf(),
                    fuel as nat == sub_budget(map.entries@.len() as nat),
                    ({
                        let (m1, inv1) = finish_state(map.entries@, i as int);
                        text_map(memo.as_map()) == m1 && invalid.as_set() == inv1
                    }),
                decreases map.entries@.len() - i,
            {
                let name = &map.entries[i].0;
                let _ = substitute_one(&map, name, &mut scratch, &mut memo, &mut invalid, fuel);
                i = i + 1;
            }
            Some(Arc::new(memo))
        },
        None => {
            match inherited_custom_properties {
                Some(b) => Some(arc_clone(b)),
                None => None,
            }
        },
    }
}

} // verus!
