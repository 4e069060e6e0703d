//! The `id` expression mini-language: `int(N)`, `null()`, or a bare literal.
//!
//! The grammar is anchored: the whole string must be `int(` or `null(`
//! followed by an argument and a final `)`. The argument capture is greedy,
//! so inner parentheses survive as part of the argument, but it cannot span
//! lines. A string of any other shape is taken verbatim as a string-typed
//! id.
use vstd::prelude::*;

use crate::error::{ErrorRep, RpcError};
use crate::num::{u64_parses, u64_value};
use crate::text::chars_of;
use crate::value::{Id, IdRep};

verus! {

pub open spec fn int_name() -> Seq<char> {
    seq!['i', 'n', 't']
}

pub open spec fn null_name() -> Seq<char> {
    seq!['n', 'u', 'l', 'l']
}

pub open spec fn no_newline(s: Seq<char>) -> bool {
    forall|i: int| 0 <= i < s.len() ==> (#[trigger] s[i]) != '\n'
}

/// Whether `s` is `name` + `(` + a single-line argument + `)`, anchored at
/// both ends.
pub open spec fn is_call(s: Seq<char>, name: Seq<char>) -> bool {
    &&& s.len() >= name.len() + 2
    &&& s.take(name.len() as int) == name
    &&& s[name.len() as int] == '('
    &&& s.last() == ')'
    &&& no_newline(call_arg(s, name))
}

/// The greedy argument of such a call: everything between the first `(` and
/// the final `)`.
pub open spec fn call_arg(s: Seq<char>, name: Seq<char>) -> Seq<char> {
    s.subrange(name.len() as int + 1, s.len() as int - 1)
}

/// Whether `s` matches the wrapper grammar at all.
pub open spec fn expr_shape(s: Seq<char>) -> bool {
    is_call(s, int_name()) || is_call(s, null_name())
}

/// What parsing an id expression yields, for every input string:
/// a bare string id when the wrapper grammar does not match; a number for
/// `int(N)` with `N` a non-negative 64-bit decimal; null for `null()`.
pub open spec fn expr_outcome(s: Seq<char>) -> Result<IdRep, ErrorRep> {
    if is_call(s, int_name()) {
        let arg = call_arg(s, int_name());
        if u64_parses(arg) {
            Ok(IdRep::Num(u64_value(arg) as u64))
        } else {
            Err(ErrorRep::InvalidExpression("invalid int argument: "@ + arg))
        }
    } else if is_call(s, null_name()) {
        if call_arg(s, null_name()).len() == 0 {
            Ok(IdRep::Null)
        } else {
            Err(ErrorRep::InvalidExpression("invalid null argument: "@ + call_arg(s, null_name())))
        }
    } else {
        Ok(IdRep::Text(s))
    }
}

/// Every string that does not match the wrapper grammar is itself the id:
/// parsing it yields a string-typed id equal to the whole input, never a
/// number and never an error.
pub proof fn lemma_bare_string_id(s: Seq<char>)
    requires
        !expr_shape(s),
    ensures
        expr_outcome(s) == Ok::<IdRep, ErrorRep>(IdRep::Text(s)),
{
}

/// Take the characters of `cs` from `from` up to but excluding the last one,
/// as an owned string: the argument slot of a call.
fn arg_string(s: &str, from: usize, n: usize) -> (r: String)
    requires
        n == s@.len(),
        from < n,
    ensures
        r@ == s@.subrange(from as int, n - 1),
{
    s.substring_char(from, n - 1).to_owned()
}

/// Parse an id expression. Every string yields an id or an error:
/// a string that does not match the wrapper grammar is itself the id.
pub fn parse_expr(expr: &str) -> (r: Result<Id, RpcError>)
    ensures
        ({
            let o = expr_outcome(expr@);
            match r {
                Ok(id) => o matches Ok(rep) && id@ == rep,
                Err(e) => o matches Err(rep) && e@ == rep,
            }
        }),
{
    let cs = chars_of(expr);
    let n = cs.len();
    let shape_int = n >= 5 && cs[0] == 'i' && cs[1] == 'n' && cs[2] == 't' && cs[3] == '(' && cs[n
        - 1] == ')';
    let shape_null = n >= 6 && cs[0] == 'n' && cs[1] == 'u' && cs[2] == 'l' && cs[3] == 'l'
        && cs[4] == '(' && cs[n - 1] == ')';
    proof {
        let s = expr@;
        if !shape_int {
            assert(!is_call(s, int_name())) by {
                if is_call(s, int_name()) {
                    assert(s.take(3)[0] == s[0] && s.take(3)[1] == s[1] && s.take(3)[2] == s[2]);
                    assert(s[0] == 'i' && s[1] == 'n' && s[2] == 't' && s[3] == '(' && s.last()
                        == ')');
                }
            }
        }
        if !shape_null {
            assert(!is_call(s, null_name())) by {
                if is_call(s, null_name()) {
                    assert(s.take(4)[0] == s[0] && s.take(4)[1] == s[1] && s.take(4)[2] == s[2]
                        && s.take(4)[3] == s[3]);
                    assert(s[0] == 'n' && s[1] == 'u' && s[2] == 'l' && s[3] == 'l' && s[4] == '('
                        && s.last() == ')');
                }
            }
        }
        if shape_int {
            assert(s[0] == 'i');
        }
        if shape_null {
            assert(s[0] == 'n');
        }
    }
    if shape_int {
        let arg = arg_string(expr, 4, n);
        let acs = chars_of(arg.as_str());
        proof {
            crate::text::lemma_first_index(arg@, '\n');
        }
        if crate::text::find_char(&acs, '\n').is_some() {
            proof {
                let fi = crate::text::first_index(arg@, '\n');
                assert(arg@[fi] == '\n');
                assert(!no_newline(call_arg(expr@, int_name())));
                assert(!is_call(expr@, int_name()));
                assert(!is_call(expr@, null_name())) by {
                    if is_call(expr@, null_name()) {
                        assert(expr@.take(4)[0] == expr@[0]);
                    }
                }
            }
            return Ok(Id::Text(expr.to_owned()));
        }
        proof {
            assert(no_newline(call_arg(expr@, int_name())));
            assert(expr@.take(3) =~= int_name());
            assert(is_call(expr@, int_name()));
        }
        match crate::num::parse_u64_chars(&acs) {
            Some(v) => Ok(Id::Num(v)),
            None => {
                let mut m = String::new();
                m.append("invalid int argument: ");
                m.append(arg.as_str());
                proof {
                    assert(m@ =~= "invalid int argument: "@ + call_arg(expr@, int_name()));
                }
                Err(RpcError::InvalidExpression(m))
            },
        }
    } else if shape_null {
        let arg = arg_string(expr, 5, n);
        let acs = chars_of(arg.as_str());
        proof {
            crate::text::lemma_first_index(arg@, '\n');
        }
        if crate::text::find_char(&acs, '\n').is_some() {
            proof {
                let fi = crate::text::first_index(arg@, '\n');
                assert(arg@[fi] == '\n');
                assert(!no_newline(call_arg(expr@, null_name())));
                assert(!is_call(expr@, null_name()));
                assert(!is_call(expr@, int_name())) by {
                    if is_call(expr@, int_name()) {
                        assert(expr@.take(3)[0] == expr@[0]);
                    }
                }
            }
            return Ok(Id::Text(expr.to_owned()));
        }
        proof {
            assert(no_newline(call_arg(expr@, null_name())));
            assert(expr@.take(4) =~= null_name());
            assert(is_call(expr@, null_name()));
        }
        if arg.as_str().unicode_len() == 0 {
            proof {
                assert(call_arg(expr@, null_name()).len() == 0);
            }
            Ok(Id::Null)
        } else {
            let mut m = String::new();
            m.append("invalid null argument: ");
            m.append(arg.as_str());
            proof {
                assert(m@ =~= "invalid null argument: "@ + call_arg(expr@, null_name()));
            }
            Err(RpcError::InvalidExpression(m))
        }
    } else {
        Ok(Id::Text(expr.to_owned()))
    }
}

} // verus!
