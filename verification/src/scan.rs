//! The tokenizable value scanner.
//!
//! `parse` validates the token stream of one declaration value and captures
//! its verbatim text together with the set of custom-property names that
//! `var()` references anywhere inside it.
//!
//! The grammar: at the top level of a value, malformed urls and strings,
//! unmatched closing brackets, bare `!` and bare `;` are errors; inside a
//! bracketed block `!` and `;` become ordinary tokens. A `var(` function
//! takes a `--`-prefixed identifier, then either the end of the call or a
//! comma followed by a fallback value scanned under the block rule. A block
//! left open at the end of the input is closed by the end of the input.

use vstd::prelude::*;
use crate::toks::{Tok, TokKind, Bracket, css_tokens, concat_texts, texts_from, tokenize};
use crate::table::NameSet;

verus! {

/// Scans tokens from `i` under the context that `closer` ends (`None` is the
/// top level of the value). Returns the position after the consumed range
/// and the set of referenced names, or `None` on a parse error.
pub open spec fn scan_from(t: Seq<Tok>, i: int, closer: Option<Bracket>) -> Option<
    (int, Set<Seq<char>>),
>
    decreases t.len() - i,
{
    if i < 0 {
        None
    } else if i >= t.len() {
        Some((t.len() as int, Set::empty()))
    } else {
        match t[i].kind {
            TokKind::BadUrl => None,
            TokKind::BadString => None,
            TokKind::Close(b) => match closer {
                Some(c) => if b == c {
                    Some((i + 1, Set::empty()))
                } else {
                    None
                },
                None => None,
            },
            TokKind::Semicolon => if closer is None {
                None
            } else {
                scan_from(t, i + 1, closer)
            },
            TokKind::Delim(ch) => if closer is None && ch == '!' {
                None
            } else {
                scan_from(t, i + 1, closer)
            },
            TokKind::Function(name) => {
                let sub = if name@ == "var"@ {
                    var_args(t, i + 1)
                } else {
                    scan_from(t, i + 1, Some(Bracket::Paren))
                };
                match sub {
                    None => None,
                    Some((j, s1)) => if i + 1 <= j && j <= t.len() {
                        match scan_from(t, j, closer) {
                            None => None,
                            Some((k, s2)) => Some((k, s1.union(s2))),
                        }
                    } else {
                        None
                    },
                }
            },
            TokKind::Open(b) => match scan_from(t, i + 1, Some(b)) {
                None => None,
                Some((j, s1)) => if i + 1 <= j && j <= t.len() {
                    match scan_from(t, j, closer) {
                        None => None,
                        Some((k, s2)) => Some((k, s1.union(s2))),
                    }
                } else {
                    None
                },
            },
            _ => scan_from(t, i + 1, closer),
        }
    }
}

/// The argument list of a `var(` call, from `i`: blanks, then an identifier
/// carrying the `--` prefix.
pub open spec fn var_args(t: Seq<Tok>, i: int) -> Option<(int, Set<Seq<char>>)>
    decreases t.len() - i,
{
    if i < 0 || i >= t.len() {
        None
    } else {
        match t[i].kind {
            TokKind::Space => var_args(t, i + 1),
            TokKind::Ident(name) => if name@.len() >= 2 && name@[0] == '-' && name@[1] == '-' {
                var_after_ident(t, i + 1, name@.subrange(2, name@.len() as int))
            } else {
                None
            },
            _ => None,
        }
    }
}

/// After the referenced name `rv`: the call may end (also by the end of the
/// input), or a comma introduces a fallback scanned under the block rule.
pub open spec fn var_after_ident(t: Seq<Tok>, i: int, rv: Seq<char>) -> Option<
    (int, Set<Seq<char>>),
>
    decreases t.len() - i,
{
    if i < 0 {
        None
    } else if i >= t.len() {
        Some((t.len() as int, Set::empty().insert(rv)))
    } else {
        match t[i].kind {
            TokKind::Space => var_after_ident(t, i + 1, rv),
            TokKind::Close(Bracket::Paren) => Some((i + 1, Set::empty().insert(rv))),
            TokKind::Comma => match scan_from(t, i + 1, Some(Bracket::Paren)) {
                None => None,
                Some((j, s)) => Some((j, s.insert(rv))),
            },
            _ => None,
        }
    }
}

/// Whether the stream holds at least one token that is not a blank.
pub open spec fn has_token(t: Seq<Tok>) -> bool {
    exists|i: int| 0 <= i < t.len() && !(t[i].kind is Space)
}

/// What `parse` returns: the verbatim text of the whole stream and the
/// referenced names, or `None` on a parse error (an all-blank value is one).
pub open spec fn spec_parse(t: Seq<Tok>) -> Option<(Seq<char>, Set<Seq<char>>)> {
    if !has_token(t) {
        None
    } else {
        match scan_from(t, 0, None) {
            None => None,
            Some((j, s)) => Some((concat_texts(t), s)),
        }
    }
}

/// One scanned declaration value: its text in CSS syntax, and the
/// custom-property names in `var()` functions, without the `--` prefix.
pub struct Value {
    pub value: String,
    pub references: NameSet,
}

fn scan_toks(toks: &Vec<Tok>, i: usize, closer: Option<Bracket>, refs: &mut NameSet) -> (r: Result<
    usize,
    (),
>)
    requires
        i <= toks@.len(),
    ensures
        match r {
            Ok(j) => i <= j <= toks@.len() && (scan_from(toks@, i as int, closer) matches Some(p)
                && p.0 == j as int && final(refs).as_set() == old(refs).as_set().union(p.1)),
            Err(_) => scan_from(toks@, i as int, closer) is None,
        },
    decreases toks@.len() - i,
{
    if i >= toks.len() {
        proof {
            assert(old(refs).as_set().union(Set::empty()) =~= old(refs).as_set());
        }
        return Ok(toks.len());
    }
    let tk = &toks[i];
    match &tk.kind {
        TokKind::BadUrl => Err(()),
        TokKind::BadString => Err(()),
        TokKind::Close(b) => {
            match closer {
                Some(c) => {
                    if *b == c {
                        proof {
                            assert(old(refs).as_set().union(Set::empty()) =~= old(refs).as_set());
                        }
                        Ok(i + 1)
                    } else {
                        Err(())
                    }
                },
                None => Err(()),
            }
        },
        TokKind::Semicolon => {
            if closer.is_none() {
                Err(())
            } else {
                scan_toks(toks, i + 1, closer, refs)
            }
        },
        TokKind::Delim(ch) => {
            if closer.is_none() && *ch == '!' {
                Err(())
            } else {
                scan_toks(toks, i + 1, closer, refs)
            }
        },
        TokKind::Function(name) => {
            let is_var = *name == "var".to_owned();
            let sub = if is_var {
                var_toks(toks, i + 1, refs)
            } else {
                scan_toks(toks, i + 1, Some(Bracket::Paren), refs)
            };
            let j = match sub {
                Ok(j) => j,
                Err(_) => {
                    return Err(());
                },
            };
            let ghost mid = refs.as_set();
            let k = match scan_toks(toks, j, closer, refs) {
                Ok(k) => k,
                Err(_) => {
                    return Err(());
                },
            };
            proof {
                let s1 = if is_var {
                    var_args(toks@, i as int + 1).unwrap().1
                } else {
                    scan_from(toks@, i as int + 1, Some(Bracket::Paren)).unwrap().1
                };
                let s2 = scan_from(toks@, j as int, closer).unwrap().1;
                assert(old(refs).as_set().union(s1).union(s2) =~= old(refs).as_set().union(
                    s1.union(s2),
                ));
            }
            Ok(k)
        },
        TokKind::Open(b) => {
            let j = match scan_toks(toks, i + 1, Some(*b), refs) {
                Ok(j) => j,
                Err(_) => {
                    return Err(());
                },
            };
            let k = match scan_toks(toks, j, closer, refs) {
                Ok(k) => k,
                Err(_) => {
                    return Err(());
                },
            };
            proof {
                let s1 = scan_from(toks@, i as int + 1, Some(*b)).unwrap().1;
                let s2 = scan_from(toks@, j as int, closer).unwrap().1;
                assert(old(refs).as_set().union(s1).union(s2) =~= old(refs).as_set().union(
                    s1.union(s2),
                ));
            }
            Ok(k)
        },
        _ => scan_toks(toks, i + 1, closer, refs),
    }
}

fn var_toks(toks: &Vec<Tok>, i: usize, refs: &mut NameSet) -> (r: Result<usize, ()>)
    requires
        i <= toks@.len(),
    ensures
        match r {
            Ok(j) => i <= j <= toks@.len() && (var_args(toks@, i as int) matches Some(p) && p.0
                == j as int && final(refs).as_set() == old(refs).as_set().union(p.1)),
            Err(_) => var_args(toks@, i as int) is None,
        },
    decreases toks@.len() - i,
{
    if i >= toks.len() {
        return Err(());
    }
    match &toks[i].kind {
        TokKind::Space => var_toks(toks, i + 1, refs),
        TokKind::Ident(name) => {
            let n = name.as_str().unicode_len();
            if n >= 2 && name.as_str().get_char(0) == '-' && name.as_str().get_char(1) == '-' {
                let stripped = name.as_str().substring_char(2, n).to_owned();
                var_after(toks, i + 1, stripped, refs)
            } else {
                Err(())
            }
        },
        _ => Err(()),
    }
}

fn var_after(toks: &Vec<Tok>, i: usize, name: String, refs: &mut NameSet) -> (r: Result<usize, ()>)
    requires
        i <= toks@.len(),
    ensures
        match r {
            Ok(j) => i <= j <= toks@.len() && (var_after_ident(toks@, i as int, name@)
                matches Some(p) && p.0 == j as int && final(refs).as_set() == old(
                refs,
            ).as_set().union(p.1)),
            Err(_) => var_after_ident(toks@, i as int, name@) is None,
        },
    decreases toks@.len() - i,
{
    if i >= toks.len() {
        let ghost nv = name@;
        refs.insert(name);
        proof {
            assert(old(refs).as_set().insert(nv) =~= old(refs).as_set().union(
                Set::empty().insert(nv),
            ));
        }
        return Ok(toks.len());
    }
    match &toks[i].kind {
        TokKind::Space => var_after(toks, i + 1, name, refs),
        TokKind::Close(Bracket::Paren) => {
            let ghost nv = name@;
            refs.insert(name);
            proof {
                assert(old(refs).as_set().insert(nv) =~= old(refs).as_set().union(
                    Set::empty().insert(nv),
                ));
            }
            Ok(i + 1)
        },
        TokKind::Comma => {
            let j = match scan_toks(toks, i + 1, Some(Bracket::Paren), refs) {
                Ok(j) => j,
                Err(_) => {
                    return Err(());
                },
            };
            let ghost nv = name@;
            refs.insert(name);
            proof {
                let s = scan_from(toks@, i as int + 1, Some(Bracket::Paren)).unwrap().1;
                assert(old(refs).as_set().union(s).insert(nv) =~= old(refs).as_set().union(
                    s.insert(nv),
                ));
            }
            Ok(j)
        },
        _ => Err(()),
    }
}

/// Scans the token stream of one declaration value.
pub fn parse(toks: &Vec<Tok>) -> (r: Result<Value, ()>)
    ensures
        match r {
            Ok(v) => spec_parse(toks@) matches Some(p) && v.value@ == p.0
                && v.references.as_set() == p.1,
            Err(_) => spec_parse(toks@) is None,
        },
{
    let mut any: bool = false;
    let mut i: usize = 0;
    while i < toks.len() && !any
        invariant
            i <= toks@.len(),
            any ==> has_token(toks@),
            !any ==> forall|j: int| 0 <= j < i ==> toks@[j].kind is Space,
        decreases toks@.len() - i, (if any { 0int } else { 1int }),
    {
        match &toks[i].kind {
            TokKind::Space => {
                i = i + 1;
            },
            _ => {
                any = true;
            },
        }
    }
    if !any {
        return Err(());
    }
    let mut refs = NameSet::new();
    match scan_toks(toks, 0, None, &mut refs) {
        Ok(_) => {},
        Err(_) => {
            return Err(());
        },
    }
    proof {
        assert(Set::<Seq<char>>::empty().union(scan_from(toks@, 0, None).unwrap().1) =~= scan_from(
            toks@,
            0,
            None,
        ).unwrap().1);
    }
    let mut text = String::new();
    let mut k: usize = 0;
    while k < toks.len()
        invariant
            k <= toks@.len(),
            text@ + texts_from(toks@, k as int) == concat_texts(toks@),
        decreases toks@.len() - k,
    {
        text.append(toks[k].text.as_str());
        proof {
            assert((text@ + texts_from(toks@, k as int + 1)) =~= (text@ + texts_from(
                toks@,
                k as int + 1,
            )));
        }
        k = k + 1;
    }
    proof {
        assert(text@ + texts_from(toks@, toks@.len() as int) =~= text@);
    }
    Ok(Value { value: text, references: refs })
}

/// Tokenizes a string and scans it as one declaration value. On success the
/// captured text is the input itself, verbatim.
pub fn parse_str(css: &str) -> (r: Result<Value, ()>)
    ensures
        match r {
            Ok(v) => spec_parse(css_tokens(css@)) matches Some(p) && v.value@ == p.0
                && v.references.as_set() == p.1 && v.value@ == css@,
            Err(_) => spec_parse(css_tokens(css@)) is None,
        },
{
    let toks = tokenize(css);
    parse(&toks)
}

} // verus!
