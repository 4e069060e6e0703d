//! The params builder: five mutually exclusive shapes, decided in strict
//! priority order against the first token.
//!
//! 1. no tokens: params is JSON null;
//! 2. first token opens with `{` or `[`: it is parsed as JSON;
//! 3. first token opens with `@`: the named file's body is parsed as JSON
//!    (the file itself is read by the caller and handed in);
//! 4. first token holds a comma: that one token splits into an array;
//! 5. first token holds neither `-` nor `=`: every token parses as JSON,
//!    giving an array (parse errors are collected, not short-circuited);
//! 6. otherwise: tokens become a key-value object (`--key=value`,
//!    `-key value`, or function calls `int(N)` / `null()`); an option token
//!    always draws the token after it out of the stream, discarding it when
//!    an `=` already supplied the value.
use vstd::prelude::*;

use crate::error::{ErrorRep, RpcError};
use crate::expr::{int_name, null_name};
use crate::jsonio::{json_err_of, json_norm, normalize_json};
use crate::num::{i64_parses, i64_value};
use crate::text::{chars_of, find_char, first_index, lemma_first_index};
use crate::value::{
    join_with, pairs_rep, push_joined, strs_rep, ObjVal, ObjValRep, ParamsRep, ParamsValue,
};

verus! {

pub enum ParamsShape {
    Empty,
    RawJson,
    FileRef,
    CommaArr,
    BareArr,
    KeyValue,
}

pub open spec fn starts_brace(t: Seq<char>) -> bool {
    t.len() > 0 && (t[0] == '{' || t[0] == '[')
}

pub open spec fn starts_at(t: Seq<char>) -> bool {
    t.len() > 0 && t[0] == '@'
}

pub open spec fn plain_token(t: Seq<char>) -> bool {
    forall|i: int| 0 <= i < t.len() ==> (#[trigger] t[i]) != '-' && t[i] != '='
}

/// The shape the token list takes, in the builder's priority order.
pub open spec fn shape_of(toks: Seq<Seq<char>>) -> ParamsShape {
    if toks.len() == 0 {
        ParamsShape::Empty
    } else if starts_brace(toks[0]) {
        ParamsShape::RawJson
    } else if starts_at(toks[0]) {
        ParamsShape::FileRef
    } else if first_index(toks[0], ',') >= 0 {
        ParamsShape::CommaArr
    } else if plain_token(toks[0]) {
        ParamsShape::BareArr
    } else {
        ParamsShape::KeyValue
    }
}

/// Whether the builder will need a file's contents for these tokens.
pub open spec fn wants_file(toks: Seq<Seq<char>>) -> bool {
    shape_of(toks) matches ParamsShape::FileRef
}

/// `s` split on every occurrence of `sep`: one piece more than separators.
pub open spec fn split_by(s: Seq<char>, sep: char) -> Seq<Seq<char>>
    decreases s.len(),
{
    if s.len() == 0 {
        seq![Seq::<char>::empty()]
    } else if s.last() == sep {
        split_by(s.drop_last(), sep).push(Seq::<char>::empty())
    } else {
        let r = split_by(s.drop_last(), sep);
        r.update(r.len() - 1, r.last().push(s.last()))
    }
}

proof fn lemma_split_by_len(s: Seq<char>, sep: char)
    ensures
        split_by(s, sep).len() >= 1,
    decreases s.len(),
{
    if s.len() > 0 {
        lemma_split_by_len(s.drop_last(), sep);
    }
}

/// Whether every piece is well-formed JSON.
pub open spec fn all_json(ps: Seq<Seq<char>>) -> bool {
    forall|i: int| 0 <= i < ps.len() ==> (#[trigger] json_norm(ps[i])) is Some
}

/// The canonical texts of the pieces, when all parse.
pub open spec fn norm_all(ps: Seq<Seq<char>>) -> Seq<Seq<char>> {
    Seq::new(ps.len(), |i: int| json_norm(ps[i]).unwrap())
}

/// The parse-error messages of the pieces that fail, in order.
pub open spec fn fail_msgs(ps: Seq<Seq<char>>) -> Seq<Seq<char>>
    decreases ps.len(),
{
    if ps.len() == 0 {
        Seq::empty()
    } else if json_norm(ps.last()) is None {
        fail_msgs(ps.drop_last()).push(json_err_of(ps.last()))
    } else {
        fail_msgs(ps.drop_last())
    }
}

proof fn lemma_fail_msgs_empty(ps: Seq<Seq<char>>)
    ensures
        fail_msgs(ps).len() == 0 <==> all_json(ps),
    decreases ps.len(),
{
    if ps.len() == 0 {
    } else {
        lemma_fail_msgs_empty(ps.drop_last());
        if fail_msgs(ps).len() == 0 {
            assert forall|i: int| 0 <= i < ps.len() implies (#[trigger] json_norm(
                ps[i],
            )) is Some by {
                if i < ps.len() - 1 {
                    assert(ps.drop_last()[i] == ps[i]);
                    assert(json_norm(ps.drop_last()[i]) is Some);
                } else {
                    assert(ps[i] == ps.last());
                }
            }
        }
        if all_json(ps) {
            assert forall|i: int| 0 <= i < ps.drop_last().len() implies (#[trigger] json_norm(
                ps.drop_last()[i],
            )) is Some by {
                assert(ps.drop_last()[i] == ps[i]);
            }
            assert(json_norm(ps.last()) is Some);
        }
    }
}

/// What parsing a list of pieces as a JSON array yields: the array of
/// canonical texts, or every parse error joined on newlines.
pub open spec fn array_outcome(ps: Seq<Seq<char>>) -> Result<ParamsRep, ErrorRep> {
    if all_json(ps) {
        Ok(ParamsRep::Arr(norm_all(ps)))
    } else {
        Err(
            ErrorRep::InvalidParams(
                "invalid JSON array\n"@ + join_with(fail_msgs(ps), seq!['\n']),
            ),
        )
    }
}

/// Key and value extracted from an option token: split the stripped token
/// once on `=`, or take the next token as the value when no `=` is present.
/// `None` when a value is owed and no next token exists.
pub open spec fn kv_pair(stripped: Seq<char>, next: Option<Seq<char>>) -> Option<
    (Seq<char>, Seq<char>),
> {
    let i = first_index(stripped, '=');
    if i >= 0 {
        Some((stripped.take(i), stripped.skip(i + 1)))
    } else {
        match next {
            Some(v) => Some((stripped, v)),
            None => None,
        }
    }
}

pub open spec fn is_long_opt(t: Seq<char>) -> bool {
    t.len() >= 2 && t[0] == '-' && t[1] == '-'
}

pub open spec fn is_short_opt(t: Seq<char>) -> bool {
    t.len() >= 1 && t[0] == '-' && !is_long_opt(t)
}

/// First position of key `k` in the object under construction, or `-1`.
pub open spec fn key_index(m: Seq<(Seq<char>, ObjValRep)>, k: Seq<char>) -> int
    decreases m.len(),
{
    if m.len() == 0 {
        -1
    } else if m[0].0 == k {
        0
    } else {
        let r = key_index(m.skip(1), k);
        if r < 0 {
            -1
        } else {
            r + 1
        }
    }
}

proof fn lemma_key_index(m: Seq<(Seq<char>, ObjValRep)>, k: Seq<char>)
    ensures
        key_index(m, k) >= 0 ==> key_index(m, k) < m.len() && m[key_index(m, k)].0 == k && (forall|
            j: int,
        | 0 <= j < key_index(m, k) ==> m[j].0 != k),
        key_index(m, k) < 0 ==> key_index(m, k) == -1 && (forall|j: int|
            0 <= j < m.len() ==> m[j].0 != k),
    decreases m.len(),
{
    if m.len() == 0 {
    } else if m[0].0 == k {
    } else {
        lemma_key_index(m.skip(1), k);
        let r = key_index(m.skip(1), k);
        if r >= 0 {
            assert(m[r + 1] == m.skip(1)[r]);
            assert forall|j: int| 0 <= j < r + 1 implies m[j].0 != k by {
                if j > 0 {
                    assert(m[j] == m.skip(1)[j - 1]);
                }
            }
        } else {
            assert forall|j: int| 0 <= j < m.len() implies m[j].0 != k by {
                if j > 0 {
                    assert(m[j] == m.skip(1)[j - 1]);
                }
            }
        }
    }
}

/// Insert `k -> v`: replace the value in place when the key repeats (last
/// write wins), append otherwise.
pub open spec fn upsert(m: Seq<(Seq<char>, ObjValRep)>, k: Seq<char>, v: ObjValRep) -> Seq<
    (Seq<char>, ObjValRep),
> {
    let i = key_index(m, k);
    if i >= 0 {
        m.update(i, (k, v))
    } else {
        m.push((k, v))
    }
}

/// The value a function-call token inserts: `int(N)` a signed 64-bit
/// number, `null()` a JSON null; any other name is unsupported.
pub open spec fn dispatch_call(name: Seq<char>, arg: Seq<char>) -> Result<ObjValRep, ErrorRep> {
    if name == int_name() {
        if i64_parses(arg) {
            Ok(ObjValRep::Int(i64_value(arg) as i64))
        } else {
            Err(ErrorRep::InvalidExpression("invalid int argument: "@ + arg))
        }
    } else if name == null_name() {
        if arg.len() == 0 {
            Ok(ObjValRep::Null)
        } else {
            Err(ErrorRep::InvalidExpression("invalid null argument: "@ + arg))
        }
    } else {
        Err(ErrorRep::UnsupportedFunction("unsupported function: "@ + name))
    }
}

/// What a non-option token contributes: split once on the first `(`; the
/// rest must close with `)`; the name then dispatches.
pub open spec fn fn_call_outcome(t: Seq<char>) -> Result<(Seq<char>, ObjValRep), ErrorRep> {
    let i = first_index(t, '(');
    let name = if i < 0 {
        t
    } else {
        t.take(i)
    };
    let arg0 = if i < 0 {
        Seq::<char>::empty()
    } else {
        t.skip(i + 1)
    };
    if arg0.len() == 0 || arg0.last() != ')' {
        Err(ErrorRep::InvalidFunctionCall("invalid function call: "@ + t))
    } else {
        match dispatch_call(name, arg0.drop_last()) {
            Ok(v) => Ok((name, v)),
            Err(e) => Err(e),
        }
    }
}

/// The key-value object built from the token list, left to right.
///
/// An option token always draws the token after it out of the stream: as
/// the value when it holds no `=` itself, and discarded otherwise — so a
/// token right after `--key=value` is dropped, never treated as its own
/// entry.
pub open spec fn kv_build(toks: Seq<Seq<char>>, acc: Seq<(Seq<char>, ObjValRep)>) -> Result<
    Seq<(Seq<char>, ObjValRep)>,
    ErrorRep,
>
    decreases toks.len(),
{
    if toks.len() == 0 {
        Ok(acc)
    } else {
        let t = toks[0];
        if is_long_opt(t) || is_short_opt(t) {
            let stripped = if is_long_opt(t) {
                t.skip(2)
            } else {
                t.skip(1)
            };
            let i = first_index(stripped, '=');
            let step: int = if toks.len() >= 2 {
                2
            } else {
                1
            };
            if i >= 0 {
                kv_build(
                    toks.skip(step),
                    upsert(acc, stripped.take(i), ObjValRep::Text(stripped.skip(i + 1))),
                )
            } else if toks.len() >= 2 {
                kv_build(toks.skip(2), upsert(acc, stripped, ObjValRep::Text(toks[1])))
            } else {
                Err(ErrorRep::MissingValue("missing value for param "@ + stripped))
            }
        } else {
            match fn_call_outcome(t) {
                Ok(p) => kv_build(toks.skip(1), upsert(acc, p.0, p.1)),
                Err(e) => Err(e),
            }
        }
    }
}

pub open spec fn file_rep(file: Option<&Result<String, String>>) -> Option<
    Result<Seq<char>, Seq<char>>,
> {
    match file {
        None => None,
        Some(res) => match res {
            Ok(s) => Some(Ok(s@)),
            Err(m) => Some(Err(m@)),
        },
    }
}

/// What the `@file` shape yields for a given read outcome.
pub open spec fn file_outcome(file: Option<Result<Seq<char>, Seq<char>>>) -> Result<
    ParamsRep,
    ErrorRep,
> {
    match file {
        None => Err(ErrorRep::ReadError(Seq::empty())),
        Some(Err(m)) => Err(ErrorRep::ReadError(m)),
        Some(Ok(content)) => match json_norm(content) {
            Some(t) => Ok(ParamsRep::Raw(t)),
            None => Err(ErrorRep::InvalidParams("invalid JSON file: "@ + json_err_of(content))),
        },
    }
}

/// What the params builder yields, for every token list and file outcome.
pub open spec fn params_outcome(
    toks: Seq<Seq<char>>,
    file: Option<Result<Seq<char>, Seq<char>>>,
) -> Result<ParamsRep, ErrorRep> {
    match shape_of(toks) {
        ParamsShape::Empty => Ok(ParamsRep::Null),
        ParamsShape::RawJson => match json_norm(toks[0]) {
            Some(t) => Ok(ParamsRep::Raw(t)),
            None => Err(
                ErrorRep::InvalidParams(
                    "invalid JSON string: "@ + toks[0] + ": "@ + json_err_of(toks[0]),
                ),
            ),
        },
        ParamsShape::FileRef => file_outcome(file),
        ParamsShape::CommaArr => array_outcome(split_by(toks[0], ',')),
        ParamsShape::BareArr => array_outcome(toks),
        ParamsShape::KeyValue => match kv_build(toks, Seq::empty()) {
            Ok(m) => Ok(ParamsRep::Obj(m)),
            Err(e) => Err(e),
        },
    }
}

pub open spec fn params_result_matches(
    r: Result<ParamsValue, RpcError>,
    o: Result<ParamsRep, ErrorRep>,
) -> bool {
    match r {
        Ok(v) => o matches Ok(p) && v@ == p,
        Err(e) => o matches Err(x) && e@ == x,
    }
}

/// Two strings concatenated, for error messages.
fn msg2(head: &str, tail: &str) -> (r: String)
    ensures
        r@ == head@ + tail@,
{
    let mut m = head.to_owned();
    m.append(tail);
    m
}

pub open spec fn next_rep(next: Option<&str>) -> Option<Seq<char>> {
    match next {
        Some(v) => Some(v@),
        None => None,
    }
}

/// Split an option token (already stripped of its dashes) into key and
/// value: at its first `=`, or taking the next token as the value.
pub fn extract_key_value<'a>(stripped: &'a str, next_param: Option<&'a str>) -> (r: Result<
    (&'a str, &'a str),
    RpcError,
>)
    ensures
        ({
            let o = kv_pair(stripped@, next_rep(next_param));
            match r {
                Ok(p) => o matches Some(q) && p.0@ == q.0 && p.1@ == q.1,
                Err(e) => o is None && e@ == ErrorRep::MissingValue(
                    "missing value for param "@ + stripped@,
                ),
            }
        }),
{
    let cs = chars_of(stripped);
    proof {
        lemma_first_index(stripped@, '=');
    }
    match find_char(&cs, '=') {
        Some(i) => {
            proof {
                assert(first_index(stripped@, '=') == i);
                assert(i < cs@.len());
            }
            let k = stripped.substring_char(0, i);
            let v = stripped.substring_char(i + 1, cs.len());
            proof {
                assert(k@ =~= stripped@.take(i as int));
                assert(v@ =~= stripped@.skip(i + 1 as int));
            }
            Ok((k, v))
        },
        None => match next_param {
            Some(v) => Ok((stripped, v)),
            None => Err(
                RpcError::MissingValue(msg2("missing value for param ", stripped)),
            ),
        },
    }
}

/// Insert `k -> v` into the object: replace in place on a repeated key.
fn upsert_obj(obj: &mut Vec<(String, ObjVal)>, k: String, v: ObjVal)
    ensures
        pairs_rep(final(obj)@) == upsert(pairs_rep(old(obj)@), k@, v@),
{
    proof {
        lemma_key_index(pairs_rep(obj@), k@);
    }
    let mut i: usize = 0;
    while i < obj.len()
        invariant
            i <= obj@.len(),
            obj@ == old(obj)@,
            forall|j: int| 0 <= j < i ==> pairs_rep(obj@)[j].0 != k@,
            key_index(pairs_rep(obj@), k@) >= 0 ==> key_index(pairs_rep(obj@), k@)
                < obj@.len() && pairs_rep(obj@)[key_index(pairs_rep(obj@), k@)].0 == k@ && (forall|
                j: int,
            | 0 <= j < key_index(pairs_rep(obj@), k@) ==> pairs_rep(obj@)[j].0 != k@),
            key_index(pairs_rep(obj@), k@) < 0 ==> forall|j: int|
                0 <= j < obj@.len() ==> pairs_rep(obj@)[j].0 != k@,
        decreases obj@.len() - i,
    {
        if obj[i].0 == k {
            proof {
                assert(pairs_rep(obj@)[i as int].0 == k@);
            }
            obj.set(i, (k, v));
            proof {
                assert(pairs_rep(obj@) =~= upsert(pairs_rep(old(obj)@), k@, v@));
            }
            return ;
        }
        i = i + 1;
    }
    obj.push((k, v));
    proof {
        assert(pairs_rep(obj@) =~= upsert(pairs_rep(old(obj)@), k@, v@));
    }
}

/// Dispatch a function-call token's name and argument, inserting the value
/// it denotes, exactly as `dispatch_call` states.
pub fn parse_function_call(name: &str, arg: &str, obj: &mut Vec<(String, ObjVal)>) -> (r: Result<
    (),
    RpcError,
>)
    ensures
        ({
            match dispatch_call(name@, arg@) {
                Ok(v) => r is Ok && pairs_rep(final(obj)@) == upsert(
                    pairs_rep(old(obj)@),
                    name@,
                    v,
                ),
                Err(e) => (r matches Err(er) && er@ == e) && final(obj)@ == old(obj)@,
            }
        }),
{
    let ncs = chars_of(name);
    let is_int_name = ncs.len() == 3 && ncs[0] == 'i' && ncs[1] == 'n' && ncs[2] == 't';
    let is_null_name = ncs.len() == 4 && ncs[0] == 'n' && ncs[1] == 'u' && ncs[2] == 'l'
        && ncs[3] == 'l';
    proof {
        if is_int_name {
            assert(name@ =~= int_name());
        } else {
            assert(name@ != int_name()) by {
                if name@ == int_name() {
                    assert(name@[0] == 'i' && name@[1] == 'n' && name@[2] == 't');
                }
            }
        }
        if is_null_name {
            assert(name@ =~= null_name());
        } else {
            assert(name@ != null_name()) by {
                if name@ == null_name() {
                    assert(name@[0] == 'n' && name@[1] == 'u' && name@[2] == 'l' && name@[3]
                        == 'l');
                }
            }
        }
    }
    if is_int_name {
        let acs = chars_of(arg);
        match crate::num::parse_i64_chars(&acs) {
            Some(v) => {
                upsert_obj(obj, name.to_owned(), ObjVal::Int(v));
                Ok(())
            },
            None => Err(RpcError::InvalidExpression(msg2("invalid int argument: ", arg))),
        }
    } else if is_null_name {
        if arg.unicode_len() == 0 {
            upsert_obj(obj, name.to_owned(), ObjVal::Null);
            Ok(())
        } else {
            Err(RpcError::InvalidExpression(msg2("invalid null argument: ", arg)))
        }
    } else {
        Err(RpcError::UnsupportedFunction(msg2("unsupported function: ", name)))
    }
}

/// Split a token on commas into owned pieces.
fn split_comma(s: &str) -> (r: Vec<String>)
    ensures
        strs_rep(r@) == split_by(s@, ','),
{
    let cs = chars_of(s);
    let mut out: Vec<String> = Vec::new();
    let mut cur = String::new();
    let mut i: usize = 0;
    proof {
        assert(strs_rep(out@).push(cur@) =~= split_by(s@.take(0), ','));
    }
    while i < cs.len()
        invariant
            i <= cs@.len(),
            cs@ == s@,
            strs_rep(out@).push(cur@) == split_by(s@.take(i as int), ','),
        decreases cs@.len() - i,
    {
        proof {
            assert(s@.take(i + 1 as int).drop_last() =~= s@.take(i as int));
            assert(s@.take(i + 1 as int).last() == s@[i as int]);
            lemma_split_by_len(s@.take(i as int), ',');
        }
        let c = cs[i];
        if c == ',' {
            out.push(cur);
            cur = String::new();
            proof {
                assert(strs_rep(out@).push(cur@) =~= split_by(s@.take(i + 1 as int), ','));
            }
        } else {
            cur.push(c);
            proof {
                let prev = split_by(s@.take(i as int), ',');
                assert(split_by(s@.take(i + 1 as int), ',') == prev.update(
                    prev.len() - 1,
                    prev.last().push(s@[i as int]),
                ));
                assert(strs_rep(out@).push(cur@) =~= split_by(s@.take(i + 1 as int), ','));
            }
        }
        i = i + 1;
    }
    out.push(cur);
    proof {
        assert(s@.take(cs@.len() as int) =~= s@);
        assert(strs_rep(out@) =~= split_by(s@, ','));
    }
    out
}

/// Parse every piece as JSON; collect the canonical texts, or every error.
fn array_build(items: &Vec<String>) -> (r: Result<ParamsValue, RpcError>)
    ensures
        params_result_matches(r, array_outcome(strs_rep(items@))),
{
    let ghost ps = strs_rep(items@);
    let mut texts: Vec<String> = Vec::new();
    let mut errs: Vec<String> = Vec::new();
    let mut i: usize = 0;
    proof {
        assert(strs_rep(errs@) =~= fail_msgs(ps.take(0)));
        assert(strs_rep(texts@) =~= norm_all(ps.take(0)));
    }
    while i < items.len()
        invariant
            i <= items@.len(),
            ps == strs_rep(items@),
            strs_rep(errs@) == fail_msgs(ps.take(i as int)),
            errs@.len() == 0 ==> all_json(ps.take(i as int)) && strs_rep(texts@) == norm_all(
                ps.take(i as int),
            ),
        decreases items@.len() - i,
    {
        proof {
            assert(ps.take(i + 1 as int).drop_last() =~= ps.take(i as int));
            assert(ps.take(i + 1 as int).last() == ps[i as int]);
            assert(ps[i as int] == items@[i as int]@);
        }
        let ghost had_err = errs@.len() > 0;
        match normalize_json(items[i].as_str()) {
            Ok(t) => {
                let ghost tv = t@;
                let ghost old_texts = texts@;
                texts.push(t);
                proof {
                    assert(strs_rep(errs@) =~= fail_msgs(ps.take(i + 1 as int)));
                    if !had_err {
                        assert forall|j: int| 0 <= j < i + 1 implies (#[trigger] json_norm(
                            ps.take(i + 1 as int)[j],
                        )) is Some by {
                            if j < i {
                                assert(ps.take(i + 1 as int)[j] == ps.take(i as int)[j]);
                                assert(json_norm(ps.take(i as int)[j]) is Some);
                            } else {
                                assert(ps.take(i + 1 as int)[j] == ps[i as int]);
                            }
                        }
                        assert forall|j: int| 0 <= j < i + 1 implies strs_rep(texts@)[j]
                            == norm_all(ps.take(i + 1 as int))[j] by {
                            assert(ps.take(i + 1 as int)[j] == ps[j]);
                            if j < i {
                                assert(ps.take(i as int)[j] == ps[j]);
                                assert(strs_rep(texts@)[j] == strs_rep(old_texts)[j]);
                                assert(strs_rep(old_texts)[j] == norm_all(ps.take(i as int))[j]);
                            } else {
                                assert(strs_rep(texts@)[j] == tv);
                                assert(json_norm(ps[i as int]) == Some(tv));
                            }
                        }
                        assert(strs_rep(texts@) =~= norm_all(ps.take(i + 1 as int)));
                    }
                }
            },
            Err(m) => {
                errs.push(m);
                proof {
                    assert(strs_rep(errs@) =~= fail_msgs(ps.take(i + 1 as int)));
                }
            },
        }
        i = i + 1;
    }
    proof {
        assert(ps.take(items@.len() as int) =~= ps);
    }
    if errs.len() == 0 {
        Ok(ParamsValue::Arr(texts))
    } else {
        proof {
            lemma_fail_msgs_empty(ps);
        }
        let mut m = String::new();
        m.append("invalid JSON array\n");
        push_joined(&errs, '\n', &mut m);
        proof {
            assert(m@ =~= "invalid JSON array\n"@ + join_with(fail_msgs(ps), seq!['\n']));
        }
        Err(RpcError::InvalidParams(m))
    }
}

/// Whether a token contains neither `-` nor `=`.
fn plain_check(cs: &Vec<char>) -> (r: bool)
    ensures
        r == plain_token(cs@),
{
    let mut i: usize = 0;
    while i < cs.len()
        invariant
            i <= cs@.len(),
            forall|j: int| 0 <= j < i ==> (#[trigger] cs@[j]) != '-' && cs@[j] != '=',
        decreases cs@.len() - i,
    {
        let c = cs[i];
        if c == '-' || c == '=' {
            return false;
        }
        i = i + 1;
    }
    true
}

/// The path named by a `@file` first token, when the token list has that
/// shape: what the caller must read and hand to `build_params`.
pub fn file_reference(tokens: &Vec<String>) -> (r: Option<String>)
    ensures
        r is Some <==> wants_file(strs_rep(tokens@)),
        r matches Some(p) ==> p@ == strs_rep(tokens@)[0].skip(1),
{
    if tokens.len() == 0 {
        return None;
    }
    let first = tokens[0].as_str();
    let cs = chars_of(first);
    proof {
        assert(strs_rep(tokens@)[0] == first@);
    }
    if cs.len() > 0 && cs[0] == '@' {
        let n = cs.len();
        let p = first.substring_char(1, n).to_owned();
        proof {
            assert(p@ =~= first@.skip(1));
        }
        Some(p)
    } else {
        None
    }
}

/// Build the params value from the token list. A `@file` first token needs
/// the file's read outcome, which the caller obtains for the path that
/// `file_reference` names; no other shape may pass one.
pub fn build_params(tokens: &Vec<String>, file: Option<&Result<String, String>>) -> (r: Result<
    ParamsValue,
    RpcError,
>)
    requires
        file is Some <==> wants_file(strs_rep(tokens@)),
    ensures
        params_result_matches(r, params_outcome(strs_rep(tokens@), file_rep(file))),
{
    let ghost tr = strs_rep(tokens@);
    if tokens.len() == 0 {
        return Ok(ParamsValue::Null);
    }
    let first = tokens[0].as_str();
    let cs0 = chars_of(first);
    proof {
        assert(tr[0] == first@);
    }
    if cs0.len() > 0 && (cs0[0] == '{' || cs0[0] == '[') {
        match normalize_json(first) {
            Ok(t) => Ok(ParamsValue::Raw(t)),
            Err(m) => {
                let mut msg = String::new();
                msg.append("invalid JSON string: ");
                msg.append(first);
                msg.append(": ");
                msg.append(m.as_str());
                proof {
                    assert(msg@ =~= "invalid JSON string: "@ + first@ + ": "@ + json_err_of(
                        first@,
                    ));
                }
                Err(RpcError::InvalidParams(msg))
            },
        }
    } else if cs0.len() > 0 && cs0[0] == '@' {
        match file {
            Some(res) => match res {
                Ok(content) => match normalize_json(content.as_str()) {
                    Ok(t) => Ok(ParamsValue::Raw(t)),
                    Err(m) => Err(
                        RpcError::InvalidParams(msg2("invalid JSON file: ", m.as_str())),
                    ),
                },
                Err(m) => Err(RpcError::ReadError(m.clone())),
            },
            None => {
                proof {
                    assert(false);
                }
                Err(RpcError::ReadError(String::new()))
            },
        }
    } else if find_char(&cs0, ',').is_some() {
        let pieces = split_comma(first);
        array_build(&pieces)
    } else if plain_check(&cs0) {
        array_build(tokens)
    } else {
        let mut obj: Vec<(String, ObjVal)> = Vec::new();
        let mut idx: usize = 0;
        proof {
            assert(tr.skip(0) =~= tr);
            assert(pairs_rep(obj@) =~= Seq::<(Seq<char>, ObjValRep)>::empty());
        }
        while idx < tokens.len()
            invariant
                idx <= tokens@.len(),
                tr == strs_rep(tokens@),
                shape_of(tr) matches ParamsShape::KeyValue,
                kv_build(tr.skip(idx as int), pairs_rep(obj@)) == kv_build(
                    tr,
                    Seq::<(Seq<char>, ObjValRep)>::empty(),
                ),
            decreases tokens@.len() - idx,
        {
            let ghost rem = tr.skip(idx as int);
            let tok = tokens[idx].as_str();
            let cs = chars_of(tok);
            let n = cs.len();
            proof {
                assert(rem[0] == tr[idx as int]);
                assert(tr[idx as int] == tok@);
            }
            let is_long = n >= 2 && cs[0] == '-' && cs[1] == '-';
            let is_short = !is_long && n >= 1 && cs[0] == '-';
            if is_long || is_short {
                let k: usize = if is_long {
                    2
                } else {
                    1
                };
                let stripped = tok.substring_char(k, n);
                proof {
                    if is_long {
                        assert(is_long_opt(tok@));
                        assert(stripped@ =~= tok@.skip(2));
                    } else {
                        assert(is_short_opt(tok@) && !is_long_opt(tok@));
                        assert(stripped@ =~= tok@.skip(1));
                    }
                    lemma_first_index(stripped@, '=');
                }
                let scs = chars_of(stripped);
                let has_eq = find_char(&scs, '=').is_some();
                let next: Option<&str> = if idx + 1 < tokens.len() {
                    Some(tokens[idx + 1].as_str())
                } else {
                    None
                };
                proof {
                    if idx + 1 < tokens@.len() {
                        assert(tr[idx + 1 as int] == tokens@[idx + 1 as int]@);
                        assert(rem[1] == tr[idx + 1 as int]);
                    }
                }
                match extract_key_value(stripped, next) {
                    Err(e) => {
                        proof {
                            assert(rem.len() == 1);
                            assert(kv_build(rem, pairs_rep(obj@)) == Err::<
                                Seq<(Seq<char>, ObjValRep)>,
                                ErrorRep,
                            >(ErrorRep::MissingValue("missing value for param "@ + stripped@)));
                        }
                        return Err(e);
                    },
                    Ok((ks, vs)) => {
                        upsert_obj(&mut obj, ks.to_owned(), ObjVal::Text(vs.to_owned()));
                        // The following token leaves the stream either way:
                        // as the value when there was no `=`, else dropped.
                        if idx + 1 < tokens.len() {
                            proof {
                                assert(!has_eq ==> next is Some);
                                assert(rem.len() >= 2);
                                assert(rem.skip(2) =~= tr.skip(idx + 2 as int));
                                assert(kv_build(tr.skip(idx + 2 as int), pairs_rep(obj@))
                                    == kv_build(tr, Seq::<(Seq<char>, ObjValRep)>::empty()));
                            }
                            idx = idx + 2;
                        } else {
                            proof {
                                assert(has_eq);
                                assert(rem.len() == 1);
                                assert(rem.skip(1) =~= tr.skip(idx + 1 as int));
                                assert(kv_build(tr.skip(idx + 1 as int), pairs_rep(obj@))
                                    == kv_build(tr, Seq::<(Seq<char>, ObjValRep)>::empty()));
                            }
                            idx = idx + 1;
                        }
                    },
                }
            } else {
                proof {
                    assert(!is_long_opt(tok@) && !is_short_opt(tok@));
                    lemma_first_index(tok@, '(');
                }
                match find_char(&cs, '(') {
                    None => {
                        proof {
                            assert(fn_call_outcome(tok@) == Err::<(Seq<char>, ObjValRep), _>(
                                ErrorRep::InvalidFunctionCall("invalid function call: "@ + tok@),
                            ));
                        }
                        return Err(
                            RpcError::InvalidFunctionCall(msg2("invalid function call: ", tok)),
                        );
                    },
                    Some(p) => {
                        if n - p - 1 == 0 || cs[n - 1] != ')' {
                            proof {
                                let arg0 = tok@.skip(p + 1 as int);
                                if arg0.len() > 0 {
                                    assert(arg0.last() == tok@[n - 1 as int]);
                                }
                                assert(fn_call_outcome(tok@) == Err::<(Seq<char>, ObjValRep), _>(
                                    ErrorRep::InvalidFunctionCall(
                                        "invalid function call: "@ + tok@,
                                    ),
                                ));
                            }
                            return Err(
                                RpcError::InvalidFunctionCall(
                                    msg2("invalid function call: ", tok),
                                ),
                            );
                        }
                        let name = tok.substring_char(0, p);
                        let arg = tok.substring_char(p + 1, n - 1);
                        proof {
                            assert(name@ =~= tok@.take(p as int));
                            let arg0 = tok@.skip(p + 1 as int);
                            assert(arg0.len() > 0 && arg0.last() == ')');
                            assert(arg@ =~= arg0.drop_last());
                        }
                        match parse_function_call(name, arg, &mut obj) {
                            Err(e) => {
                                proof {
                                    assert(kv_build(rem, pairs_rep(obj@)) == kv_build(
                                        tr,
                                        Seq::<(Seq<char>, ObjValRep)>::empty(),
                                    ));
                                }
                                return Err(e);
                            },
                            Ok(u) => {
                                proof {
                                    assert(rem.skip(1) =~= tr.skip(idx + 1 as int));
                                    assert(kv_build(tr.skip(idx + 1 as int), pairs_rep(obj@))
                                        == kv_build(tr, Seq::<(Seq<char>, ObjValRep)>::empty()));
                                }
                                idx = idx + 1;
                            },
                        }
                    },
                }
            }
        }
        proof {
            assert(tr.skip(tokens@.len() as int) =~= Seq::<Seq<char>>::empty());
        }
        Ok(ParamsValue::Obj(obj))
    }
}

} // verus!
