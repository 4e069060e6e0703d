//! The JSON values this tool builds, and their exact serialized text.
//!
//! Free-form JSON that `serde_json` parsed passes through as its canonical
//! text (`Raw`); everything the tool constructs itself (ids, option objects,
//! positional arrays) is serialized here, character by character, with
//! `serde_json`'s escaping rules.
use vstd::prelude::*;

use crate::num::{dec_str_of, dec_str_signed, digit_char};
use crate::text::chars_of;

verus! {

/// A value inserted into a key-value params object.
#[derive(Debug, Clone, PartialEq, Eq)]
pub enum ObjVal {
    Text(String),
    Int(i64),
    Null,
}

pub enum ObjValRep {
    Text(Seq<char>),
    Int(i64),
    Null,
}

impl View for ObjVal {
    type V = ObjValRep;

    open spec fn view(&self) -> ObjValRep {
        match self {
            ObjVal::Text(t) => ObjValRep::Text(t@),
            ObjVal::Int(n) => ObjValRep::Int(*n),
            ObjVal::Null => ObjValRep::Null,
        }
    }
}

/// The params value of a request: one of the four shapes the builder makes.
/// `Raw` carries JSON text already in `serde_json`'s canonical form; `Arr`
/// elements are likewise canonical texts of the parsed pieces.
#[derive(Debug, Clone, PartialEq, Eq)]
pub enum ParamsValue {
    Null,
    Raw(String),
    Arr(Vec<String>),
    Obj(Vec<(String, ObjVal)>),
}

pub enum ParamsRep {
    Null,
    Raw(Seq<char>),
    Arr(Seq<Seq<char>>),
    Obj(Seq<(Seq<char>, ObjValRep)>),
}

/// The views of a sequence of strings.
pub open spec fn strs_rep(items: Seq<String>) -> Seq<Seq<char>> {
    Seq::new(items.len(), |i: int| items[i]@)
}

/// The views of a sequence of key-value pairs.
pub open spec fn pairs_rep(pairs: Seq<(String, ObjVal)>) -> Seq<(Seq<char>, ObjValRep)> {
    Seq::new(pairs.len(), |i: int| (pairs[i].0@, pairs[i].1@))
}

impl View for ParamsValue {
    type V = ParamsRep;

    open spec fn view(&self) -> ParamsRep {
        match self {
            ParamsValue::Null => ParamsRep::Null,
            ParamsValue::Raw(t) => ParamsRep::Raw(t@),
            ParamsValue::Arr(items) => ParamsRep::Arr(strs_rep(items@)),
            ParamsValue::Obj(pairs) => ParamsRep::Obj(pairs_rep(pairs@)),
        }
    }
}

/// A JSON-RPC request id: a string, an unsigned number, or null.
#[derive(Debug, Clone, PartialEq, Eq)]
pub enum Id {
    Text(String),
    Num(u64),
    Null,
}

pub enum IdRep {
    Text(Seq<char>),
    Num(u64),
    Null,
}

impl View for Id {
    type V = IdRep;

    open spec fn view(&self) -> IdRep {
        match self {
            Id::Text(t) => IdRep::Text(t@),
            Id::Num(n) => IdRep::Num(*n),
            Id::Null => IdRep::Null,
        }
    }
}

pub open spec fn hex_char(d: nat) -> char {
    if d < 10 {
        digit_char(d)
    } else if d == 10 {
        'a'
    } else if d == 11 {
        'b'
    } else if d == 12 {
        'c'
    } else if d == 13 {
        'd'
    } else if d == 14 {
        'e'
    } else {
        'f'
    }
}

/// How `serde_json` escapes one character inside a JSON string.
pub open spec fn esc_char(c: char) -> Seq<char> {
    if c == '"' {
        seq!['\\', '"']
    } else if c == '\\' {
        seq!['\\', '\\']
    } else if c as u32 == 8 {
        seq!['\\', 'b']
    } else if c as u32 == 9 {
        seq!['\\', 't']
    } else if c as u32 == 10 {
        seq!['\\', 'n']
    } else if c as u32 == 12 {
        seq!['\\', 'f']
    } else if c as u32 == 13 {
        seq!['\\', 'r']
    } else if (c as u32) < 32 {
        let hi = hex_char((c as u32 / 16) as nat);
        let lo = hex_char((c as u32 % 16) as nat);
        seq!['\\', 'u', '0', '0', hi, lo]
    } else {
        seq![c]
    }
}

pub open spec fn esc(s: Seq<char>) -> Seq<char>
    decreases s.len(),
{
    if s.len() == 0 {
        Seq::empty()
    } else {
        esc(s.drop_last()) + esc_char(s.last())
    }
}

/// The JSON string literal denoting `s`.
pub open spec fn quoted(s: Seq<char>) -> Seq<char> {
    seq!['"'] + esc(s) + seq!['"']
}

/// `items` joined with `sep` between neighbours.
pub open spec fn join_with(items: Seq<Seq<char>>, sep: Seq<char>) -> Seq<char>
    decreases items.len(),
{
    if items.len() == 0 {
        Seq::empty()
    } else if items.len() == 1 {
        items[0]
    } else {
        join_with(items.drop_last(), sep) + sep + items.last()
    }
}

pub open spec fn obj_val_text(v: ObjValRep) -> Seq<char> {
    match v {
        ObjValRep::Text(t) => quoted(t),
        ObjValRep::Int(n) => dec_str_signed(n as int),
        ObjValRep::Null => "null"@,
    }
}

pub open spec fn obj_entries(pairs: Seq<(Seq<char>, ObjValRep)>) -> Seq<Seq<char>> {
    Seq::new(pairs.len(), |i: int| quoted(pairs[i].0) + seq![':'] + obj_val_text(pairs[i].1))
}

/// The serialized text of a params value. Objects keep insertion order.
pub open spec fn params_text(p: ParamsRep) -> Seq<char> {
    match p {
        ParamsRep::Null => "null"@,
        ParamsRep::Raw(t) => t,
        ParamsRep::Arr(items) => seq!['['] + join_with(items, seq![',']) + seq![']'],
        ParamsRep::Obj(pairs) => seq!['{'] + join_with(obj_entries(pairs), seq![',']) + seq!['}'],
    }
}

pub open spec fn id_text(id: IdRep) -> Seq<char> {
    match id {
        IdRep::Text(t) => quoted(t),
        IdRep::Num(n) => dec_str_of(n as nat),
        IdRep::Null => "null"@,
    }
}

fn push_hex_digit(d: u32, out: &mut String)
    requires
        d < 16,
    ensures
        final(out)@ == old(out)@.push(hex_char(d as nat)),
{
    if d == 0 {
        out.push('0');
    } else if d == 1 {
        out.push('1');
    } else if d == 2 {
        out.push('2');
    } else if d == 3 {
        out.push('3');
    } else if d == 4 {
        out.push('4');
    } else if d == 5 {
        out.push('5');
    } else if d == 6 {
        out.push('6');
    } else if d == 7 {
        out.push('7');
    } else if d == 8 {
        out.push('8');
    } else if d == 9 {
        out.push('9');
    } else if d == 10 {
        out.push('a');
    } else if d == 11 {
        out.push('b');
    } else if d == 12 {
        out.push('c');
    } else if d == 13 {
        out.push('d');
    } else if d == 14 {
        out.push('e');
    } else {
        out.push('f');
    }
}

fn push_esc_char(c: char, out: &mut String)
    ensures
        final(out)@ == old(out)@ + esc_char(c),
{
    let u = c as u32;
    if c == '"' {
        out.push('\\');
        out.push('"');
    } else if c == '\\' {
        out.push('\\');
        out.push('\\');
    } else if u == 8 {
        out.push('\\');
        out.push('b');
    } else if u == 9 {
        out.push('\\');
        out.push('t');
    } else if u == 10 {
        out.push('\\');
        out.push('n');
    } else if u == 12 {
        out.push('\\');
        out.push('f');
    } else if u == 13 {
        out.push('\\');
        out.push('r');
    } else if u < 32 {
        out.push('\\');
        out.push('u');
        out.push('0');
        out.push('0');
        push_hex_digit(u / 16, out);
        push_hex_digit(u % 16, out);
    } else {
        out.push(c);
    }
    proof {
        assert(out@ =~= old(out)@ + esc_char(c));
    }
}

/// Append the JSON string literal denoting `s`.
pub fn push_quoted(s: &str, out: &mut String)
    ensures
        final(out)@ == old(out)@ + quoted(s@),
{
    let cs = chars_of(s);
    out.push('"');
    let ghost base = old(out)@ + seq!['"'];
    let mut i: usize = 0;
    while i < cs.len()
        invariant
            i <= cs@.len(),
            cs@ == s@,
            base == old(out)@ + seq!['"'],
            out@ == base + esc(s@.take(i as int)),
        decreases cs@.len() - i,
    {
        push_esc_char(cs[i], out);
        proof {
            assert(s@.take(i + 1 as int).drop_last() =~= s@.take(i as int));
            assert(s@.take(i + 1 as int).last() == s@[i as int]);
        }
        i = i + 1;
    }
    out.push('"');
    proof {
        assert(s@.take(s@.len() as int) =~= s@);
        assert(out@ =~= old(out)@ + quoted(s@));
    }
}

/// Append `items` joined with single-character separator `sep`.
pub(crate) fn push_joined(items: &Vec<String>, sep: char, out: &mut String)
    ensures
        final(out)@ == old(out)@ + join_with(strs_rep(items@), seq![sep]),
{
    let mut i: usize = 0;
    while i < items.len()
        invariant
            i <= items@.len(),
            out@ == old(out)@ + join_with(strs_rep(items@).take(i as int), seq![sep]),
        decreases items@.len() - i,
    {
        if i > 0 {
            out.push(sep);
        }
        out.append(items[i].as_str());
        proof {
            let all = strs_rep(items@);
            assert(all.take(i + 1 as int).drop_last() =~= all.take(i as int));
            assert(all.take(i + 1 as int).last() == all[i as int]);
            assert(all[i as int] == items@[i as int]@);
            if i == 0 {
                assert(join_with(all.take(1), seq![sep]) == all.take(1)[0]);
                assert(all.take(1)[0] == all[0]);
                assert(out@ =~= old(out)@ + join_with(all.take(i + 1 as int), seq![sep]));
            } else {
                assert(out@ =~= old(out)@ + join_with(all.take(i + 1 as int), seq![sep]));
            }
        }
        i = i + 1;
    }
    proof {
        assert(strs_rep(items@).take(items@.len() as int) =~= strs_rep(items@));
    }
}

fn push_obj_val(v: &ObjVal, out: &mut String)
    ensures
        final(out)@ == old(out)@ + obj_val_text(v@),
{
    match v {
        ObjVal::Text(t) => push_quoted(t.as_str(), out),
        ObjVal::Int(n) => crate::num::push_i64_text(*n, out),
        ObjVal::Null => out.append("null"),
    }
}

fn push_obj_entries(pairs: &Vec<(String, ObjVal)>, out: &mut String)
    ensures
        final(out)@ == old(out)@ + join_with(obj_entries(pairs_rep(pairs@)), seq![',']),
{
    let mut i: usize = 0;
    while i < pairs.len()
        invariant
            i <= pairs@.len(),
            out@ == old(out)@ + join_with(
                obj_entries(pairs_rep(pairs@)).take(i as int),
                seq![','],
            ),
        decreases pairs@.len() - i,
    {
        if i > 0 {
            out.push(',');
        }
        let ghost pre = out@;
        push_quoted(pairs[i].0.as_str(), out);
        out.push(':');
        push_obj_val(&pairs[i].1, out);
        proof {
            let all = obj_entries(pairs_rep(pairs@));
            assert(all[i as int] == quoted(pairs@[i as int].0@) + seq![':'] + obj_val_text(
                pairs@[i as int].1@,
            ));
            assert(out@ =~= pre + all[i as int]);
            assert(all.take(i + 1 as int).drop_last() =~= all.take(i as int));
            assert(all.take(i + 1 as int).last() == all[i as int]);
            if i == 0 {
                assert(join_with(all.take(1), seq![',']) == all.take(1)[0]);
                assert(all.take(1)[0] == all[0]);
            }
            assert(out@ =~= old(out)@ + join_with(all.take(i + 1 as int), seq![',']));
        }
        i = i + 1;
    }
    proof {
        assert(obj_entries(pairs_rep(pairs@)).take(pairs@.len() as int) =~= obj_entries(
            pairs_rep(pairs@),
        ));
    }
}

/// Append the serialized text of a params value.
pub fn push_params_text(p: &ParamsValue, out: &mut String)
    ensures
        final(out)@ == old(out)@ + params_text(p@),
{
    match p {
        ParamsValue::Null => out.append("null"),
        ParamsValue::Raw(t) => out.append(t.as_str()),
        ParamsValue::Arr(items) => {
            out.push('[');
            push_joined(items, ',', out);
            out.push(']');
            proof {
                assert(out@ =~= old(out)@ + params_text(p@));
            }
        },
        ParamsValue::Obj(pairs) => {
            out.push('{');
            push_obj_entries(pairs, out);
            out.push('}');
            proof {
                assert(out@ =~= old(out)@ + params_text(p@));
            }
        },
    }
}

/// Append the serialized text of an id.
pub fn push_id_text(id: &Id, out: &mut String)
    ensures
        final(out)@ == old(out)@ + id_text(id@),
{
    match id {
        Id::Text(t) => push_quoted(t.as_str(), out),
        Id::Num(n) => crate::num::push_u64_text(*n, out),
        Id::Null => out.append("null"),
    }
}

/// The serialized text of a params value, on its own.
pub fn params_to_string(p: &ParamsValue) -> (r: String)
    ensures
        r@ == params_text(p@),
{
    let mut out = String::new();
    push_params_text(p, &mut out);
    proof {
        assert(out@ =~= params_text(p@));
    }
    out
}

} // verus!
