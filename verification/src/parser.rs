//! The tokenizer: a recursive-descent reader turning expression source
//! text into a syntax-token tree.
//!
//! The grammar, lowest binding first: logical `or`, logical `and`,
//! equality (`==`, `!=`), relational (`>`, `<`, `>=`, `<=`), additive
//! (`+`, `-`), multiplicative (`*`, `/`); postfix field access, index
//! access and call application bind tighter than any operator and
//! left-associate when chained. `if c { t } else { e }` and
//! `for x in xs { body }` produce expressions. Integer literals are
//! signed decimals; the boolean literals are the two keywords; string
//! literals are double-quoted with backslash-escaped quotes; a list
//! literal holds literal elements between brackets. An embedded markup
//! fragment is recognized as one balanced-tag span and handed whole to
//! the host's markup parser; its failure surfaces as a syntax error at
//! the span's position. Anything else is a syntax error at the offending
//! position — nothing is silently dropped. Input holding nothing but
//! blank space is an empty-expression error; input that ends where an
//! operand is owed is a syntax error at the end position.
//!
//! The `lex_*` specification functions below state this grammar as a
//! total reading model over the source characters; the reader is proved
//! to agree with it exactly, up to the host's accept-or-reject answer on
//! each markup span.

use vstd::prelude::*;

use crate::errors::EngineError;
use crate::host::Host;
use crate::strutil::chars_to_string;
use crate::tokens::{literal_token, wf_token, ExpressionToken, Operator};

verus! {

/// Whether the character can start an identifier.
pub open spec fn ident_start_char(c: char) -> bool {
    97 <= c as u32 <= 122 || 65 <= c as u32 <= 90 || c as u32 == 95
}

/// Whether the character can continue an identifier.
pub open spec fn ident_char_ok(c: char) -> bool {
    ident_start_char(c) || dec_digit(c)
}

/// Whether the character is a decimal digit.
pub open spec fn dec_digit(c: char) -> bool {
    48 <= c as u32 <= 57
}

/// Decides whether the character can start an identifier.
fn is_ident_start(c: char) -> (r: bool)
    ensures
        r == ident_start_char(c),
{
    let u = c as u32;
    (97 <= u && u <= 122) || (65 <= u && u <= 90) || u == 95
}

/// Decides whether the character can continue an identifier.
fn is_ident_char(c: char) -> (r: bool)
    ensures
        r == ident_char_ok(c),
{
    let u = c as u32;
    (97 <= u && u <= 122) || (65 <= u && u <= 90) || u == 95 || (48 <= u && u <= 57)
}

/// Decides whether the character is a decimal digit.
fn is_digit(c: char) -> (r: bool)
    ensures
        r == dec_digit(c),
{
    let u = c as u32;
    48 <= u && u <= 57
}

/// Whether the character is blank space.
pub open spec fn ws_char(c: char) -> bool {
    c as u32 == 32 || c as u32 == 9 || c as u32 == 10 || c as u32 == 13
}

/// Decides whether the character is blank space.
fn is_ws(c: char) -> (r: bool)
    ensures
        r == ws_char(c),
{
    let u = c as u32;
    u == 32 || u == 9 || u == 10 || u == 13
}

/// What one lexical reading yields: where the production ends and
/// whether a markup span was crossed on the way — the one point where
/// the host is consulted — or the position-carrying error the grammar
/// assigns. The `lit` flag records whether the token read is a
/// self-contained literal, which the list-literal rule demands of its
/// elements. A reading that fails to advance reports a syntax error;
/// the reader always advances, so those guards are never the outcome.
pub struct LexOut {
    pub saw_markup: bool,
    pub lit: bool,
    pub out: Result<int, EngineError>,
}

/// A reading that ends at the position.
pub open spec fn lex_done(saw: bool, lit: bool, end: int) -> LexOut {
    LexOut { saw_markup: saw, lit, out: Ok(end) }
}

/// A reading that fails with a syntax error at the position.
pub open spec fn lex_fail(saw: bool, at: int) -> LexOut {
    LexOut { saw_markup: saw, lit: false, out: Err(EngineError::SyntaxError { position: at as usize }) }
}

/// Where blank space ends, reading from the position.
pub open spec fn skip_ws_at(chars: Seq<char>, pos: int) -> int
    decreases chars.len() - pos,
{
    if 0 <= pos && pos < chars.len() && ws_char(chars[pos]) {
        skip_ws_at(chars, pos + 1)
    } else {
        pos
    }
}

/// Where the identifier continuing at the position ends.
pub open spec fn ident_cont_at(chars: Seq<char>, pos: int) -> int
    decreases chars.len() - pos,
{
    if 0 <= pos && pos < chars.len() && ident_char_ok(chars[pos]) {
        ident_cont_at(chars, pos + 1)
    } else {
        pos
    }
}

/// Where the identifier starting at the position ends: the position
/// itself when none starts there.
pub open spec fn ident_end_at(chars: Seq<char>, pos: int) -> int {
    if 0 <= pos && pos < chars.len() && ident_start_char(chars[pos]) {
        ident_cont_at(chars, pos + 1)
    } else {
        pos
    }
}

/// The operator of one precedence tier at the position, with its end; a
/// word operator only on a word boundary.
pub open spec fn op_at(chars: Seq<char>, pos: int, level: u8) -> Option<(Operator, int)> {
    let n = chars.len() as int;
    if pos < 0 || pos >= n {
        None
    } else {
        let c = chars[pos] as u32;
        if level == 5 {
            if c == 111 && pos + 1 < n && chars[pos + 1] as u32 == 114 && (pos + 2 >= n
                || !ident_char_ok(chars[pos + 2])) {
                Some((Operator::Or, pos + 2))
            } else {
                None
            }
        } else if level == 4 {
            if c == 97 && pos + 1 < n && chars[pos + 1] as u32 == 110 && pos + 2 < n && chars[pos
                + 2] as u32 == 100 && (pos + 3 >= n || !ident_char_ok(chars[pos + 3])) {
                Some((Operator::And, pos + 3))
            } else {
                None
            }
        } else if level == 3 {
            if pos + 1 < n && chars[pos + 1] as u32 == 61 {
                if c == 61 {
                    Some((Operator::Eq, pos + 2))
                } else if c == 33 {
                    Some((Operator::Neq, pos + 2))
                } else {
                    None
                }
            } else {
                None
            }
        } else if level == 2 {
            if c == 62 {
                if pos + 1 < n && chars[pos + 1] as u32 == 61 {
                    Some((Operator::Gte, pos + 2))
                } else {
                    Some((Operator::Gt, pos + 1))
                }
            } else if c == 60 {
                if pos + 1 < n && chars[pos + 1] as u32 == 61 {
                    Some((Operator::Lte, pos + 2))
                } else {
                    Some((Operator::Lt, pos + 1))
                }
            } else {
                None
            }
        } else if level == 1 {
            if c == 43 {
                Some((Operator::Add, pos + 1))
            } else if c == 45 {
                Some((Operator::Sub, pos + 1))
            } else {
                None
            }
        } else {
            if c == 42 {
                Some((Operator::Mul, pos + 1))
            } else if c == 47 {
                Some((Operator::Div, pos + 1))
            } else {
                None
            }
        }
    }
}

/// Where the digit run at the position ends.
pub open spec fn digits_end_at(chars: Seq<char>, pos: int) -> int
    decreases chars.len() - pos,
{
    if 0 <= pos && pos < chars.len() && dec_digit(chars[pos]) {
        digits_end_at(chars, pos + 1)
    } else {
        pos
    }
}

/// Where the integer literal at the position ends: a missing digit or a
/// value outside the machine word is a syntax error at the position.
pub open spec fn int_end_at(chars: Seq<char>, pos: int) -> Result<int, EngineError> {
    let n = chars.len() as int;
    let neg = chars[pos] as u32 == 45;
    let first = if neg {
        pos + 1
    } else {
        pos
    };
    if !(0 <= first && first < n && dec_digit(chars[first])) {
        Err(EngineError::SyntaxError { position: pos as usize })
    } else {
        let dend = digits_end_at(chars, first);
        let v = digits_val(chars.subrange(first, dend));
        if neg && v > isize::MAX as int + 1 {
            Err(EngineError::SyntaxError { position: pos as usize })
        } else if !neg && v > isize::MAX as int {
            Err(EngineError::SyntaxError { position: pos as usize })
        } else {
            Ok(dend)
        }
    }
}

/// Where the string literal whose body starts at the position ends: one
/// past the closing quote, with backslash escapes skipped; input that
/// ends first is a syntax error at the literal's start.
pub open spec fn str_end_at(chars: Seq<char>, p: int, start: int) -> Result<int, EngineError>
    decreases chars.len() - p,
{
    let n = chars.len() as int;
    if p < 0 || p >= n {
        Err(EngineError::SyntaxError { position: start as usize })
    } else if chars[p] as u32 == 34 {
        Ok(p + 1)
    } else if chars[p] as u32 == 92 && p + 1 < n && (chars[p + 1] as u32 == 34 || chars[p
        + 1] as u32 == 92) {
        str_end_at(chars, p + 2, start)
    } else {
        str_end_at(chars, p + 1, start)
    }
}

/// Where the tag whose body starts at the position closes: the position
/// of its `>` with quoted text skipped, or the input's end when the tag
/// never closes.
pub open spec fn tag_close_at(chars: Seq<char>, q: int, in_quote: bool) -> int
    decreases chars.len() - q,
{
    let n = chars.len() as int;
    if q < 0 || q >= n {
        n
    } else if !in_quote && chars[q] as u32 == 62 {
        q
    } else if chars[q] as u32 == 34 {
        tag_close_at(chars, q + 1, !in_quote)
    } else {
        tag_close_at(chars, q + 1, in_quote)
    }
}

/// Where the text run before the next tag ends.
pub open spec fn text_end_at(chars: Seq<char>, p: int) -> int
    decreases chars.len() - p,
{
    if 0 <= p && p < chars.len() && chars[p] as u32 != 60 {
        text_end_at(chars, p + 1)
    } else {
        p
    }
}

/// Where the markup span closes, reading tag by tag from the position at
/// the given open-tag depth; unbalanced or unterminated markup is a
/// syntax error at the span's start.
pub open spec fn markup_end_at(chars: Seq<char>, p: int, depth: int, start: int) -> Result<
    int,
    EngineError,
>
    decreases chars.len() - p,
{
    let n = chars.len() as int;
    if p < 0 || p >= n {
        Err(EngineError::SyntaxError { position: start as usize })
    } else {
        let closing = p + 1 < n && chars[p + 1] as u32 == 47;
        let q = tag_close_at(chars, p + 1, false);
        if q >= n {
            Err(EngineError::SyntaxError { position: start as usize })
        } else if closing && depth == 0 {
            Err(EngineError::SyntaxError { position: start as usize })
        } else {
            let depth2 = if closing {
                depth - 1
            } else if chars[q - 1] as u32 != 47 {
                depth + 1
            } else {
                depth
            };
            if depth2 == 0 {
                Ok(q + 1)
            } else {
                let p2 = text_end_at(chars, q + 1);
                if p2 >= n || p2 <= p {
                    Err(EngineError::SyntaxError { position: start as usize })
                } else {
                    markup_end_at(chars, p2, depth2, start)
                }
            }
        }
    }
}

/// What reading one primary operand yields.
pub open spec fn lex_primary(chars: Seq<char>, pos: int) -> LexOut
    decreases chars.len() - pos, 0int,
{
    let n = chars.len() as int;
    if pos < 0 || pos >= n {
        lex_fail(false, pos)
    } else {
        let c = chars[pos] as u32;
        if c == 40 {
            let m = lex_level(chars, pos + 1, 5);
            match m.out {
                Ok(p) => {
                    let q = skip_ws_at(chars, p);
                    if q < n && chars[q] as u32 == 41 {
                        lex_done(m.saw_markup, m.lit, q + 1)
                    } else {
                        lex_fail(m.saw_markup, q)
                    }
                },
                Err(e) => m,
            }
        } else if c == 45 || dec_digit(chars[pos]) {
            LexOut { saw_markup: false, lit: true, out: int_end_at(chars, pos) }
        } else if c == 34 {
            LexOut { saw_markup: false, lit: true, out: str_end_at(chars, pos + 1, pos) }
        } else if c == 60 {
            match markup_end_at(chars, pos, 0, pos) {
                Ok(p) => lex_done(true, true, p),
                Err(e) => LexOut { saw_markup: false, lit: false, out: Err(e) },
            }
        } else if c == 91 {
            let p0 = skip_ws_at(chars, pos + 1);
            if p0 < n && chars[p0] as u32 == 93 {
                lex_done(false, true, p0 + 1)
            } else if p0 <= pos || p0 > n {
                lex_fail(false, pos)
            } else {
                lex_list_rest(chars, p0, false)
            }
        } else if ident_start_char(chars[pos]) {
            let iend = ident_end_at(chars, pos);
            let word = chars.subrange(pos, iend);
            if word == "true"@ || word == "false"@ {
                lex_done(false, true, iend)
            } else if iend <= pos || iend > n {
                lex_fail(false, pos)
            } else if word == "if"@ {
                lex_if(chars, iend)
            } else if word == "for"@ {
                lex_for(chars, iend)
            } else if word == "else"@ || word == "in"@ || word == "and"@ || word == "or"@ {
                lex_fail(false, pos)
            } else {
                lex_done(false, false, iend)
            }
        } else {
            lex_fail(false, pos)
        }
    }
}

/// What reading the remaining list-literal elements yields, each element
/// a literal, up to the closing bracket.
pub open spec fn lex_list_rest(chars: Seq<char>, p: int, saw: bool) -> LexOut
    decreases chars.len() - p, 9int,
{
    let n = chars.len() as int;
    let m = lex_level(chars, p, 5);
    let saw2 = saw || m.saw_markup;
    match m.out {
        Ok(p2) => if !m.lit {
            lex_fail(saw2, p)
        } else {
            let q = skip_ws_at(chars, p2);
            if q < n && chars[q] as u32 == 44 {
                let p3 = skip_ws_at(chars, q + 1);
                if p3 <= p || p3 > n {
                    lex_fail(saw2, p)
                } else {
                    lex_list_rest(chars, p3, saw2)
                }
            } else if q < n && chars[q] as u32 == 93 {
                lex_done(saw2, true, q + 1)
            } else {
                lex_fail(saw2, q)
            }
        },
        Err(e) => LexOut { saw_markup: saw2, lit: false, out: Err(e) },
    }
}

/// What reading a conditional after its keyword yields.
pub open spec fn lex_if(chars: Seq<char>, pos: int) -> LexOut
    decreases chars.len() - pos, 9int,
{
    let n = chars.len() as int;
    let mc = lex_level(chars, pos, 5);
    match mc.out {
        Ok(p1) => if p1 <= pos || p1 > n {
            lex_fail(mc.saw_markup, pos)
        } else {
            let mt = lex_block(chars, p1);
            let saw1 = mc.saw_markup || mt.saw_markup;
            match mt.out {
                Ok(p2) => {
                    let q = skip_ws_at(chars, p2);
                    if q < n && ident_start_char(chars[q]) && chars.subrange(
                        q,
                        ident_end_at(chars, q),
                    ) == "else"@ {
                        if ident_end_at(chars, q) <= pos || ident_end_at(chars, q) > n {
                            lex_fail(saw1, pos)
                        } else {
                            let me = lex_block(chars, ident_end_at(chars, q));
                            LexOut { saw_markup: saw1 || me.saw_markup, lit: false, out: me.out }
                        }
                    } else {
                        lex_done(saw1, false, p2)
                    }
                },
                Err(e) => LexOut { saw_markup: saw1, lit: false, out: Err(e) },
            }
        },
        Err(e) => mc,
    }
}

/// What reading a loop after its keyword yields.
pub open spec fn lex_for(chars: Seq<char>, pos: int) -> LexOut
    decreases chars.len() - pos, 9int,
{
    let n = chars.len() as int;
    let p = skip_ws_at(chars, pos);
    if p >= n || !ident_start_char(chars[p]) {
        lex_fail(false, p)
    } else {
        let p1 = ident_end_at(chars, p);
        let q = skip_ws_at(chars, p1);
        if q >= n || !ident_start_char(chars[q]) {
            lex_fail(false, q)
        } else {
            let q1 = ident_end_at(chars, q);
            if chars.subrange(q, q1) != "in"@ {
                lex_fail(false, q)
            } else if q1 < pos || q1 > n {
                lex_fail(false, pos)
            } else {
                let mi = lex_level(chars, q1, 5);
                match mi.out {
                    Ok(p2) => if p2 <= pos || p2 > n {
                        lex_fail(mi.saw_markup, pos)
                    } else {
                        let mb = lex_block(chars, p2);
                        LexOut {
                            saw_markup: mi.saw_markup || mb.saw_markup,
                            lit: false,
                            out: mb.out,
                        }
                    },
                    Err(e) => mi,
                }
            }
        }
    }
}

/// What reading a braced block holding one expression yields.
pub open spec fn lex_block(chars: Seq<char>, pos: int) -> LexOut
    decreases chars.len() - pos, 9int,
{
    let n = chars.len() as int;
    let p = skip_ws_at(chars, pos);
    if p >= n || chars[p] as u32 != 123 {
        lex_fail(false, p)
    } else if p < pos {
        lex_fail(false, pos)
    } else {
        let m = lex_level(chars, p + 1, 5);
        match m.out {
            Ok(p1) => {
                let q = skip_ws_at(chars, p1);
                if q < n && chars[q] as u32 == 125 {
                    lex_done(m.saw_markup, m.lit, q + 1)
                } else {
                    lex_fail(m.saw_markup, q)
                }
            },
            Err(e) => m,
        }
    }
}

/// What reading a call's arguments after its opening parenthesis yields.
pub open spec fn lex_args(chars: Seq<char>, pos: int) -> LexOut
    decreases chars.len() - pos, 10int,
{
    let n = chars.len() as int;
    let p = skip_ws_at(chars, pos);
    if p < n && chars[p] as u32 == 41 {
        lex_done(false, false, p + 1)
    } else if p < pos || p > n {
        lex_fail(false, pos)
    } else {
        lex_args_rest(chars, p, false)
    }
}

/// What reading the remaining arguments yields: each positional or named
/// by a leading identifier and equals sign, up to the closing
/// parenthesis.
pub open spec fn lex_args_rest(chars: Seq<char>, p: int, saw: bool) -> LexOut
    decreases chars.len() - p, 9int,
{
    let n = chars.len() as int;
    let named = 0 <= p && p < n && ident_start_char(chars[p]) && {
        let q = skip_ws_at(chars, ident_end_at(chars, p));
        q < n && chars[q] as u32 == 61 && !(q + 1 < n && chars[q + 1] as u32 == 61)
    };
    let vstart = if named {
        skip_ws_at(chars, skip_ws_at(chars, ident_end_at(chars, p)) + 1)
    } else {
        p
    };
    if vstart < p || vstart > n {
        lex_fail(saw, p)
    } else {
        let m = lex_level(chars, vstart, 5);
        let saw2 = saw || m.saw_markup;
        match m.out {
            Ok(p2) => {
                let q2 = skip_ws_at(chars, p2);
                if q2 < n && chars[q2] as u32 == 44 {
                    let p3 = skip_ws_at(chars, q2 + 1);
                    if p3 <= p || p3 > n {
                        lex_fail(saw2, p)
                    } else {
                        lex_args_rest(chars, p3, saw2)
                    }
                } else if q2 < n && chars[q2] as u32 == 41 {
                    lex_done(saw2, false, q2 + 1)
                } else {
                    lex_fail(saw2, q2)
                }
            },
            Err(e) => LexOut { saw_markup: saw2, lit: false, out: Err(e) },
        }
    }
}

/// What reading one postfix chain yields.
pub open spec fn lex_postfix(chars: Seq<char>, pos: int) -> LexOut
    decreases chars.len() - pos, 1int,
{
    let m = lex_primary(chars, pos);
    match m.out {
        Ok(p) => if p <= pos || p > chars.len() {
            lex_fail(m.saw_markup, pos)
        } else {
            lex_post_rest(chars, p, m.saw_markup, m.lit)
        },
        Err(e) => m,
    }
}

/// What reading the remaining postfix steps yields: field accesses,
/// index accesses and call applications, left to right.
pub open spec fn lex_post_rest(chars: Seq<char>, p: int, saw: bool, lit: bool) -> LexOut
    decreases chars.len() - p, 2int,
{
    let n = chars.len() as int;
    if 0 <= p && p < n && chars[p] as u32 == 46 {
        if p + 1 < n && ident_start_char(chars[p + 1]) {
            let p2 = ident_end_at(chars, p + 1);
            if p2 <= p || p2 > n {
                lex_fail(saw, p)
            } else {
                lex_post_rest(chars, p2, saw, false)
            }
        } else {
            lex_fail(saw, p)
        }
    } else if 0 <= p && p < n && chars[p] as u32 == 91 {
        let s1 = skip_ws_at(chars, p + 1);
        if s1 <= p || s1 > n {
            lex_fail(saw, p)
        } else {
            let m = lex_level(chars, s1, 5);
            let saw2 = saw || m.saw_markup;
            match m.out {
                Ok(p2) => {
                    let q = skip_ws_at(chars, p2);
                    if q < n && chars[q] as u32 == 93 {
                        if q + 1 <= p {
                            lex_fail(saw2, p)
                        } else {
                            lex_post_rest(chars, q + 1, saw2, false)
                        }
                    } else {
                        lex_fail(saw2, q)
                    }
                },
                Err(e) => LexOut { saw_markup: saw2, lit: false, out: Err(e) },
            }
        }
    } else if 0 <= p && p < n && chars[p] as u32 == 40 {
        let m = lex_args(chars, p + 1);
        let saw2 = saw || m.saw_markup;
        match m.out {
            Ok(p2) => if p2 <= p || p2 > n {
                lex_fail(saw2, p)
            } else {
                lex_post_rest(chars, p2, saw2, false)
            },
            Err(e) => LexOut { saw_markup: saw2, lit: false, out: Err(e) },
        }
    } else {
        LexOut { saw_markup: saw, lit, out: Ok(p) }
    }
}

/// What reading one expression of the given precedence tier yields.
pub open spec fn lex_level(chars: Seq<char>, pos: int, level: u8) -> LexOut
    decreases chars.len() - pos, level + 3int,
{
    let start = skip_ws_at(chars, pos);
    if start < pos || start > chars.len() {
        lex_fail(false, pos)
    } else {
        let m = if level == 0 {
            lex_postfix(chars, start)
        } else {
            lex_level(chars, start, (level - 1) as u8)
        };
        match m.out {
            Ok(p) => if p <= pos || p > chars.len() {
                lex_fail(m.saw_markup, pos)
            } else {
                lex_level_rest(chars, p, level, m.saw_markup, m.lit)
            },
            Err(e) => m,
        }
    }
}

/// What reading the remaining operator/operand pairs of one tier yields.
pub open spec fn lex_level_rest(chars: Seq<char>, p: int, level: u8, saw: bool, lit: bool) -> LexOut
    decreases chars.len() - p, level + 3int,
{
    let q = skip_ws_at(chars, p);
    match op_at(chars, q, level) {
        None => LexOut { saw_markup: saw, lit, out: Ok(p) },
        Some(t) => {
            if t.1 <= p || t.1 > chars.len() {
                lex_fail(saw, p)
            } else {
                let vstart = if level == 0 {
                    skip_ws_at(chars, t.1)
                } else {
                    t.1
                };
                if vstart <= p || vstart > chars.len() {
                    lex_fail(saw, p)
                } else {
                    let m = if level == 0 {
                        lex_postfix(chars, vstart)
                    } else {
                        lex_level(chars, vstart, (level - 1) as u8)
                    };
                    let saw2 = saw || m.saw_markup;
                    match m.out {
                        Ok(p2) => if p2 <= p || p2 > chars.len() {
                            lex_fail(saw2, p)
                        } else {
                            lex_level_rest(chars, p2, level, saw2, false)
                        },
                        Err(e) => LexOut { saw_markup: saw2, lit: false, out: Err(e) },
                    }
                }
            }
        },
    }
}

/// What reading one whole expression yields: blank space, one top-tier
/// expression, blank space, and nothing else. Wholly blank input is an
/// empty-expression error; trailing text is a syntax error at its start.
pub open spec fn lex_expr(chars: Seq<char>) -> LexOut {
    let n = chars.len() as int;
    let p = skip_ws_at(chars, 0);
    if p >= n {
        LexOut {
            saw_markup: false,
            lit: false,
            out: Err(EngineError::EmptyExpression { position: p as usize }),
        }
    } else {
        let m = lex_level(chars, p, 5);
        match m.out {
            Ok(p1) => {
                let q = skip_ws_at(chars, p1);
                if q < n {
                    lex_fail(m.saw_markup, q)
                } else {
                    lex_done(m.saw_markup, m.lit, n)
                }
            },
            Err(e) => m,
        }
    }
}

/// Whether an executable reading outcome agrees with the model's: the
/// same end on success, and on failure either the model's own error or —
/// only after a markup span, where the host's answer decides — a syntax
/// error. In particular, a reading the model accepts without any markup
/// span must succeed, and one the model rejects must fail.
pub open spec fn lex_agrees(
    res: Result<(ExpressionToken, usize), EngineError>,
    m: LexOut,
) -> bool {
    match m.out {
        Ok(e) => {
            &&& (res matches Ok(t) ==> t.1 as int == e && literal_token(t.0) == m.lit)
            &&& (res matches Err(er) ==> er is SyntaxError && m.saw_markup)
        },
        Err(e) => res matches Err(er) && (er == e || (er is SyntaxError && m.saw_markup)),
    }
}

/// The argument-list form of `lex_agrees`.
pub open spec fn lex_agrees_args(
    res: Result<(Vec<ExpressionToken>, Vec<(String, ExpressionToken)>, usize), EngineError>,
    m: LexOut,
) -> bool {
    match m.out {
        Ok(e) => {
            &&& (res matches Ok(t) ==> t.2 as int == e)
            &&& (res matches Err(er) ==> er is SyntaxError && m.saw_markup)
        },
        Err(e) => res matches Err(er) && (er == e || (er is SyntaxError && m.saw_markup)),
    }
}

/// A tier reading that has already crossed a markup span reports so.
proof fn lemma_level_rest_saw(chars: Seq<char>, p: int, level: u8, lit: bool)
    ensures
        lex_level_rest(chars, p, level, true, lit).saw_markup,
    decreases chars.len() - p, level + 3int,
{
    let q = skip_ws_at(chars, p);
    match op_at(chars, q, level) {
        None => {},
        Some(t) => {
            if !(t.1 <= p || t.1 > chars.len()) {
                let vstart = if level == 0 {
                    skip_ws_at(chars, t.1)
                } else {
                    t.1
                };
                if !(vstart <= p || vstart > chars.len()) {
                    let m = if level == 0 {
                        lex_postfix(chars, vstart)
                    } else {
                        lex_level(chars, vstart, (level - 1) as u8)
                    };
                    match m.out {
                        Ok(p2) => {
                            if !(p2 <= p || p2 > chars.len()) {
                                lemma_level_rest_saw(chars, p2, level, false);
                            }
                        },
                        Err(e) => {},
                    }
                }
            }
        },
    }
}

/// A postfix reading that has already crossed a markup span reports so.
proof fn lemma_post_rest_saw(chars: Seq<char>, p: int, lit: bool)
    ensures
        lex_post_rest(chars, p, true, lit).saw_markup,
    decreases chars.len() - p, 2int,
{
    let n = chars.len() as int;
    if 0 <= p && p < n && chars[p] as u32 == 46 {
        if p + 1 < n && ident_start_char(chars[p + 1]) {
            let p2 = ident_end_at(chars, p + 1);
            if !(p2 <= p || p2 > n) {
                lemma_post_rest_saw(chars, p2, false);
            }
        }
    } else if 0 <= p && p < n && chars[p] as u32 == 91 {
        let s1 = skip_ws_at(chars, p + 1);
        if !(s1 <= p || s1 > n) {
            let m = lex_level(chars, s1, 5);
            match m.out {
                Ok(p2) => {
                    let q = skip_ws_at(chars, p2);
                    if q < n && chars[q] as u32 == 93 && !(q + 1 <= p) {
                        lemma_post_rest_saw(chars, q + 1, false);
                    }
                },
                Err(e) => {},
            }
        }
    } else if 0 <= p && p < n && chars[p] as u32 == 40 {
        let m = lex_args(chars, p + 1);
        match m.out {
            Ok(p2) => {
                if !(p2 <= p || p2 > n) {
                    lemma_post_rest_saw(chars, p2, false);
                }
            },
            Err(e) => {},
        }
    }
}

/// An argument reading that has already crossed a markup span reports so.
proof fn lemma_args_rest_saw(chars: Seq<char>, p: int)
    ensures
        lex_args_rest(chars, p, true).saw_markup,
    decreases chars.len() - p, 9int,
{
    let n = chars.len() as int;
    let named = 0 <= p && p < n && ident_start_char(chars[p]) && {
        let q = skip_ws_at(chars, ident_end_at(chars, p));
        q < n && chars[q] as u32 == 61 && !(q + 1 < n && chars[q + 1] as u32 == 61)
    };
    let vstart = if named {
        skip_ws_at(chars, skip_ws_at(chars, ident_end_at(chars, p)) + 1)
    } else {
        p
    };
    if !(vstart < p || vstart > n) {
        let m = lex_level(chars, vstart, 5);
        match m.out {
            Ok(p2) => {
                let q2 = skip_ws_at(chars, p2);
                if q2 < n && chars[q2] as u32 == 44 {
                    let p3 = skip_ws_at(chars, q2 + 1);
                    if !(p3 <= p || p3 > n) {
                        lemma_args_rest_saw(chars, p3);
                    }
                }
            },
            Err(e) => {},
        }
    }
}

/// A list reading that has already crossed a markup span reports so.
proof fn lemma_list_rest_saw(chars: Seq<char>, p: int)
    ensures
        lex_list_rest(chars, p, true).saw_markup,
    decreases chars.len() - p, 9int,
{
    let n = chars.len() as int;
    let m = lex_level(chars, p, 5);
    match m.out {
        Ok(p2) => {
            if m.lit {
                let q = skip_ws_at(chars, p2);
                if q < n && chars[q] as u32 == 44 {
                    let p3 = skip_ws_at(chars, q + 1);
                    if !(p3 <= p || p3 > n) {
                        lemma_list_rest_saw(chars, p3);
                    }
                }
            }
        },
        Err(e) => {},
    }
}

/// A digit run ends at or after its start, within the input, and holds
/// digits throughout.
proof fn lemma_digits_end(chars: Seq<char>, x: int)
    requires
        0 <= x <= chars.len(),
    ensures
        x <= digits_end_at(chars, x) <= chars.len(),
        forall|j: int| x <= j < digits_end_at(chars, x) ==> dec_digit(#[trigger] chars[j]),
    decreases chars.len() - x,
{
    if x < chars.len() && dec_digit(chars[x]) {
        lemma_digits_end(chars, x + 1);
    }
}

/// The value of a digit run is never negative.
proof fn lemma_digits_val_nonneg(s: Seq<char>)
    requires
        forall|j: int| 0 <= j < s.len() ==> dec_digit(#[trigger] s[j]),
    ensures
        digits_val(s) >= 0,
    decreases s.len(),
{
    if s.len() > 0 {
        assert(forall|j: int|
            0 <= j < s.drop_last().len() ==> dec_digit(#[trigger] s.drop_last()[j]));
        lemma_digits_val_nonneg(s.drop_last());
    }
}

/// A longer digit run has at least the value of its prefix.
proof fn lemma_digits_val_mono(chars: Seq<char>, f: int, e1: int, e2: int)
    requires
        0 <= f <= e1 <= e2 <= chars.len(),
        forall|j: int| f <= j < e2 ==> dec_digit(#[trigger] chars[j]),
    ensures
        digits_val(chars.subrange(f, e1)) <= digits_val(chars.subrange(f, e2)),
    decreases e2 - e1,
{
    if e1 < e2 {
        lemma_digits_val_mono(chars, f, e1, e2 - 1);
        assert(chars.subrange(f, e2).drop_last() =~= chars.subrange(f, e2 - 1));
        assert(chars.subrange(f, e2).last() == chars[e2 - 1]);
        assert(forall|j: int|
            0 <= j < chars.subrange(f, e2 - 1).len() ==> dec_digit(
                #[trigger] chars.subrange(f, e2 - 1)[j],
            ));
        lemma_digits_val_nonneg(chars.subrange(f, e2 - 1));
    }
}

/// Reads a string into its characters.
#[verifier::loop_isolation(false)]
fn to_chars(s: &str) -> (r: Vec<char>)
    ensures
        r@ == s@,
{
    let n = s.unicode_len();
    let mut out: Vec<char> = Vec::new();
    let mut i: usize = 0;
    while i < n
        invariant
            i <= n,
            n == s@.len(),
            out@ == s@.take(i as int),
        decreases n - i,
    {
        out.push(s.get_char(i));
        proof {
            assert(s@.take(i as int + 1) =~= s@.take(i as int).push(s@[i as int]));
        }
        i = i + 1;
    }
    proof {
        assert(s@.take(n as int) =~= s@);
    }
    out
}

/// Advances past blank space.
#[verifier::loop_isolation(false)]
fn skip_ws(chars: &Vec<char>, pos: usize) -> (r: usize)
    requires
        pos <= chars@.len(),
    ensures
        pos <= r <= chars@.len(),
        r as int == skip_ws_at(chars@, pos as int),
        forall|j: int| pos <= j < r ==> ws_char(#[trigger] chars@[j]),
        r < chars@.len() ==> !ws_char(chars@[r as int]),
{
    let mut p = pos;
    while p < chars.len() && is_ws(chars[p])
        invariant
            pos <= p <= chars@.len(),
            skip_ws_at(chars@, pos as int) == skip_ws_at(chars@, p as int),
            forall|j: int| pos <= j < p ==> ws_char(#[trigger] chars@[j]),
        decreases chars@.len() - p,
    {
        p = p + 1;
    }
    p
}

/// Reads a maximal identifier starting at the position.
#[verifier::loop_isolation(false)]
fn scan_ident(chars: &Vec<char>, pos: usize) -> (r: (String, usize))
    requires
        pos < chars@.len(),
    ensures
        pos <= r.1 <= chars@.len(),
        r.1 as int == ident_end_at(chars@, pos as int),
        r.0@ == chars@.subrange(pos as int, r.1 as int),
        (r.1 > pos) == ident_start_char(chars@[pos as int]),
{
    let n = chars.len();
    let mut p = pos;
    let mut buf: Vec<char> = Vec::new();
    if is_ident_start(chars[p]) {
        buf.push(chars[p]);
        p = p + 1;
        proof {
            assert(buf@ =~= chars@.subrange(pos as int, p as int));
        }
        while p < chars.len() && is_ident_char(chars[p])
            invariant
                pos < p <= chars@.len(),
                buf@ == chars@.subrange(pos as int, p as int),
                ident_cont_at(chars@, pos as int + 1) == ident_cont_at(chars@, p as int),
            decreases chars@.len() - p,
        {
            buf.push(chars[p]);
            proof {
                assert(chars@.subrange(pos as int, p as int + 1) =~= chars@.subrange(
                    pos as int,
                    p as int,
                ).push(chars@[p as int]));
            }
            p = p + 1;
        }
    } else {
        proof {
            assert(buf@ =~= chars@.subrange(pos as int, pos as int));
        }
    }
    (chars_to_string(&buf), p)
}

/// Compares the scanned text to a keyword.
fn ident_is(s: &String, lit: &str) -> (r: bool)
    ensures
        r == (s@ == lit@),
{
    crate::strutil::str_eq_exec(s.as_str(), lit)
}

/// Reads the operator of one precedence tier at the position, with its
/// end. A word operator only matches on a word boundary.
fn match_op(chars: &Vec<char>, pos: usize, level: u8) -> (r: Option<(Operator, usize)>)
    requires
        pos <= chars@.len(),
    ensures
        r matches Some(t) ==> pos < t.1 <= chars@.len(),
        match r {
            Some(t) => op_at(chars@, pos as int, level) == Some((t.0, t.1 as int)),
            None => op_at(chars@, pos as int, level) is None,
        },
{
    let n = chars.len();
    if pos >= n {
        return None;
    }
    let c = chars[pos] as u32;
    if level == 5 {
        // `or`
        if c == 111 && pos + 1 < n && chars[pos + 1] as u32 == 114 && (pos + 2 >= n
            || !is_ident_char(chars[pos + 2])) {

            Some((Operator::Or, pos + 2))
        } else {
            None
        }
    } else if level == 4 {
        // `and`
        if c == 97 && pos + 1 < n && chars[pos + 1] as u32 == 110 && pos + 2 < n && chars[pos
            + 2] as u32 == 100 && (pos + 3 >= n || !is_ident_char(chars[pos + 3])) {
            Some((Operator::And, pos + 3))
        } else {
            None
        }
    } else if level == 3 {
        // `==` and `!=`
        if pos + 1 < n && chars[pos + 1] as u32 == 61 {
            if c == 61 {
                Some((Operator::Eq, pos + 2))
            } else if c == 33 {
                Some((Operator::Neq, pos + 2))
            } else {
                None
            }
        } else {
            None
        }
    } else if level == 2 {
        // `>=`, `<=`, `>`, `<`
        if c == 62 {
            if pos + 1 < n && chars[pos + 1] as u32 == 61 {
                Some((Operator::Gte, pos + 2))
            } else {
                Some((Operator::Gt, pos + 1))
            }
        } else if c == 60 {
            if pos + 1 < n && chars[pos + 1] as u32 == 61 {
                Some((Operator::Lte, pos + 2))
            } else {
                Some((Operator::Lt, pos + 1))
            }
        } else {
            None
        }
    } else if level == 1 {
        // `+` and `-`
        if c == 43 {
            Some((Operator::Add, pos + 1))
        } else if c == 45 {
            Some((Operator::Sub, pos + 1))
        } else {
            None
        }
    } else {
        // `*` and `/`
        if c == 42 {
            Some((Operator::Mul, pos + 1))
        } else if c == 47 {
            Some((Operator::Div, pos + 1))
        } else {
            None
        }
    }
}

/// The numeric value of one digit character.
pub open spec fn digit_val(c: char) -> int {
    c as u32 - 48
}

/// The numeric value of a digit run, most significant first.
pub open spec fn digits_val(s: Seq<char>) -> int
    decreases s.len(),
{
    if s.len() == 0 {
        0
    } else {
        digits_val(s.drop_last()) * 10 + digit_val(s.last())
    }
}

/// Reads a signed decimal integer literal: the value of its digits,
/// negated under a leading minus sign. A value outside the machine word
/// is a syntax error at its position.
#[verifier::loop_isolation(false)]
fn parse_integer(chars: &Vec<char>, pos: usize) -> (res: Result<(isize, usize), EngineError>)
    requires
        pos < chars@.len(),
    ensures
        res matches Ok(t) ==> pos < t.1 <= chars@.len(),
        res matches Ok(t) ==> (if chars@[pos as int] as u32 == 45 {
            t.0 as int == -digits_val(chars@.subrange(pos as int + 1, t.1 as int))
        } else {
            t.0 as int == digits_val(chars@.subrange(pos as int, t.1 as int))
        }),
        res matches Err(e) ==> e is SyntaxError,
        match int_end_at(chars@, pos as int) {
            Ok(e) => res matches Ok(t) && t.1 as int == e,
            Err(er) => res == Err::<(isize, usize), EngineError>(er),
        },
{
    let n = chars.len();
    let mut p = pos;
    let neg = chars[p] as u32 == 45;
    if neg {
        p = p + 1;
    }
    if p >= n || !is_digit(chars[p]) {
        return Err(EngineError::SyntaxError { position: pos });
    }
    // accumulate the value as a non-positive number, so that the most
    // negative machine integer is representable
    let ghost first = p as int;
    let mut val: isize = 0 - ((chars[p] as u32 - 48) as isize);
    p = p + 1;
    proof {
        assert(digits_val(Seq::<char>::empty()) == 0);
        assert(chars@.subrange(first, p as int).drop_last() =~= Seq::<char>::empty());
        assert(chars@.subrange(first, p as int).last() == chars@[first]);
        lemma_digits_end(chars@, first);
    }
    let ghost dend = digits_end_at(chars@, first);
    while p < n && is_digit(chars[p])
        invariant
            pos < p <= chars@.len(),
            first < p as int,
            val <= 0,
            val as int == -digits_val(chars@.subrange(first, p as int)),
            dend == digits_end_at(chars@, p as int),
            forall|j: int| first <= j < p ==> dec_digit(#[trigger] chars@[j]),
        decreases chars@.len() - p,
    {
        let d = (chars[p] as u32 - 48) as isize;
        proof {
            assert(chars@.subrange(first, p as int + 1).drop_last() =~= chars@.subrange(
                first,
                p as int,
            ));
            assert(chars@.subrange(first, p as int + 1).last() == chars@[p as int]);
            assert(dend == digits_end_at(chars@, p as int + 1));
            lemma_digits_end(chars@, p as int + 1);
            assert(forall|j: int| first <= j < dend ==> dec_digit(#[trigger] chars@[j]));
        }
        let stepped = match val.checked_mul(10) {
            Some(m) => match m.checked_sub(d) {
                Some(x) => x,
                None => {
                    proof {
                        lemma_int_overflow(chars@, first, p as int + 1, dend, pos as int);
                    }
                    return Err(EngineError::SyntaxError { position: pos });
                },
            },
            None => {
                proof {
                    lemma_int_overflow(chars@, first, p as int + 1, dend, pos as int);
                }
                return Err(EngineError::SyntaxError { position: pos });
            },
        };
        val = stepped;
        p = p + 1;
    }
    proof {
        assert(dend == p as int);
    }
    if neg {
        Ok((val, p))
    } else {
        match (0 as isize).checked_sub(val) {
            Some(v) => Ok((v, p)),
            None => Err(EngineError::SyntaxError { position: pos }),
        }
    }
}

/// An integer whose digits already exceed the machine word at a prefix
/// exceeds it over the whole run, so the grammar rejects it.
proof fn lemma_int_overflow(chars: Seq<char>, first: int, pe: int, dend: int, pos: int)
    requires
        0 <= first <= pe <= dend <= chars.len(),
        forall|j: int| first <= j < dend ==> dec_digit(#[trigger] chars[j]),
        digits_val(chars.subrange(first, pe)) > isize::MAX as int + 1,
        dend == digits_end_at(chars, first),
        0 <= pos,
        (chars[pos] as u32 == 45 && first == pos + 1) || (chars[pos] as u32 != 45 && first
            == pos),
    ensures
        int_end_at(chars, pos) == Err::<int, EngineError>(
            EngineError::SyntaxError { position: pos as usize },
        ),
{
    lemma_digits_val_mono(chars, first, pe, dend);
}

/// Reads a double-quoted string literal, unescaping `\"` and `\\` and
/// keeping any other escape verbatim.
#[verifier::loop_isolation(false)]
fn parse_string(chars: &Vec<char>, pos: usize) -> (res: Result<(String, usize), EngineError>)
    requires
        pos < chars@.len(),
    ensures
        res matches Ok(t) ==> pos < t.1 <= chars@.len(),
        res matches Err(e) ==> e is SyntaxError,
        match str_end_at(chars@, pos as int + 1, pos as int) {
            Ok(e) => res matches Ok(t) && t.1 as int == e,
            Err(er) => res == Err::<(String, usize), EngineError>(er),
        },
{
    let n = chars.len();
    let mut p = pos + 1;
    let mut buf: Vec<char> = Vec::new();
    while p < n && chars[p] as u32 != 34
        invariant
            pos < p <= chars@.len(),
            str_end_at(chars@, pos as int + 1, pos as int) == str_end_at(
                chars@,
                p as int,
                pos as int,
            ),
        decreases chars@.len() - p,
    {
        if chars[p] as u32 == 92 && p + 1 < n && (chars[p + 1] as u32 == 34 || chars[p + 1] as u32
            == 92) {
            buf.push(chars[p + 1]);
            p = p + 2;
        } else {
            buf.push(chars[p]);
            p = p + 1;
        }
    }
    if p >= n {
        return Err(EngineError::SyntaxError { position: pos });
    }
    Ok((chars_to_string(&buf), p + 1))
}

/// Recognizes one balanced markup span starting at `<`: tags may nest and
/// may be self-closing, quoted attribute text is skipped, and the span
/// ends when the outermost tag closes. The span's text is returned
/// verbatim for the host's markup parser.
#[verifier::loop_isolation(false)]
fn scan_markup(chars: &Vec<char>, pos: usize) -> (res: Result<(String, usize), EngineError>)
    requires
        pos < chars@.len(),
        chars@[pos as int] as u32 == 60,
    ensures
        res matches Ok(t) ==> pos < t.1 <= chars@.len() && t.0@ == chars@.subrange(
            pos as int,
            t.1 as int,
        ),
        res matches Err(e) ==> e is SyntaxError,
        match markup_end_at(chars@, pos as int, 0, pos as int) {
            Ok(e) => res matches Ok(t) && t.1 as int == e,
            Err(er) => res == Err::<(String, usize), EngineError>(er),
        },
{
    let n = chars.len();
    let mut p = pos;
    let mut depth: usize = 0;
    loop
        invariant
            pos <= p < n,
            n == chars@.len(),
            depth <= p,
            chars@[p as int] as u32 == 60,
            markup_end_at(chars@, pos as int, 0, pos as int) == markup_end_at(
                chars@,
                p as int,
                depth as int,
                pos as int,
            ),
        decreases chars@.len() - p,
    {
        // read one tag from `<` to its `>`
        let closing = p + 1 < n && chars[p + 1] as u32 == 47;
        let mut q = p + 1;
        let mut in_quote = false;
        while q < n && (in_quote || chars[q] as u32 != 62)
            invariant
                p < q <= chars@.len(),
                tag_close_at(chars@, p as int + 1, false) == tag_close_at(
                    chars@,
                    q as int,
                    in_quote,
                ),
            decreases chars@.len() - q,
        {
            if chars[q] as u32 == 34 {
                in_quote = !in_quote;
            }
            q = q + 1;
        }
        if q >= n {
            return Err(EngineError::SyntaxError { position: pos });
        }
        let self_closing = chars[q - 1] as u32 == 47;
        if closing {
            if depth == 0 {
                return Err(EngineError::SyntaxError { position: pos });
            }
            depth = depth - 1;
        } else if !self_closing {
            depth = depth + 1;
        }
        p = q + 1;
        if depth == 0 {
            let mut buf: Vec<char> = Vec::new();
            let mut i = pos;
            while i < p
                invariant
                    pos <= i <= p <= chars@.len(),
                    buf@ == chars@.subrange(pos as int, i as int),
                decreases p - i,
            {
                buf.push(chars[i]);
                proof {
                    assert(chars@.subrange(pos as int, i as int + 1) =~= chars@.subrange(
                        pos as int,
                        i as int,
                    ).push(chars@[i as int]));
                }
                i = i + 1;
            }
            return Ok((chars_to_string(&buf), p));
        }
        // skip text until the next tag
        let ghost pt = p as int;
        while p < n && chars[p] as u32 != 60
            invariant
                pos <= p <= chars@.len(),
                q < p,
                depth <= p,
                text_end_at(chars@, pt) == text_end_at(chars@, p as int),
            decreases chars@.len() - p,
        {
            p = p + 1;
        }
        if p >= n {
            return Err(EngineError::SyntaxError { position: pos });
        }
    }
}

/// Decides whether the token is a self-contained literal.
#[verifier::loop_isolation(false)]
fn is_literal_token_exec(t: &ExpressionToken) -> (r: bool)
    ensures
        r == literal_token(*t),
    decreases *t,
{
    match t {
        ExpressionToken::Str(_) => true,
        ExpressionToken::Integer(_) => true,
        ExpressionToken::Boolean(_) => true,
        ExpressionToken::XNode(_) => true,
        ExpressionToken::List(ts) => {
            let mut i: usize = 0;
            while i < ts.len()
                invariant
                    i <= ts@.len(),
                    forall|j: int| 0 <= j < i ==> literal_token(#[trigger] ts@[j]),
                decreases ts@.len() - i,
            {
                if !is_literal_token_exec(&ts[i]) {
                    return false;
                }
                i = i + 1;
            }
            true
        },
        _ => false,
    }
}

/// Reads one primary operand: a literal, an identifier, a parenthesized
/// expression, a list literal, a conditional, a loop, or a markup span.
#[verifier::loop_isolation(false)]
fn parse_primary<H: Host>(chars: &Vec<char>, pos: usize, host: &H) -> (res: Result<
    (ExpressionToken, usize),
    EngineError,
>)
    requires
        pos <= chars@.len(),
    ensures
        res matches Ok(t) ==> wf_token(t.0) && pos < t.1 <= chars@.len(),
        res matches Err(e) ==> e is SyntaxError,
        lex_agrees(res, lex_primary(chars@, pos as int)),
    decreases chars@.len() - pos, 0int,
{
    let n = chars.len();
    if pos >= n {
        // the input ends where an operand is owed: a syntax error, while
        // wholly empty input is caught before parsing starts
        return Err(EngineError::SyntaxError { position: pos });
    }
    let c = chars[pos] as u32;
    if c == 40 {
        // a parenthesized expression
        let (inner, p) = match parse_level(chars, pos + 1, 5, host) {
            Ok(t) => t,
            Err(e) => {
                return Err(e);
            },
        };
        let q = skip_ws(chars, p);
        if q < n && chars[q] as u32 == 41 {
            Ok((inner, q + 1))
        } else {
            Err(EngineError::SyntaxError { position: q })
        }
    } else if c == 45 || is_digit(chars[pos]) {
        match parse_integer(chars, pos) {
            Ok((v, p)) => Ok((ExpressionToken::Integer(v), p)),
            Err(e) => Err(e),
        }
    } else if c == 34 {
        match parse_string(chars, pos) {
            Ok((s, p)) => Ok((ExpressionToken::Str(s), p)),
            Err(e) => Err(e),
        }
    } else if c == 60 {
        // an embedded markup fragment, handed whole to the host's parser
        let (span, p) = match scan_markup(chars, pos) {
            Ok(t) => t,
            Err(e) => {
                return Err(e);
            },
        };
        match host.parse_markup(span.as_str()) {
            Ok(node) => Ok((ExpressionToken::XNode(node), p)),
            Err(_) => Err(EngineError::SyntaxError { position: pos }),
        }
    } else if c == 91 {
        // a list literal of literal elements
        let mut items: Vec<ExpressionToken> = Vec::new();
        let mut p = skip_ws(chars, pos + 1);
        if p < n && chars[p] as u32 == 93 {
            return Ok((ExpressionToken::List(items), p + 1));
        }
        let ghost mut gsaw = false;
        loop
            invariant
                pos < p <= chars@.len(),
                n == chars@.len(),
                forall|j: int| 0 <= j < items@.len() ==> literal_token(#[trigger] items@[j]),
                lex_primary(chars@, pos as int) == lex_list_rest(chars@, p as int, gsaw),
            decreases chars@.len() - p,
        {
            let elem_pos = p;
            let ghost m = lex_level(chars@, p as int, 5);
            let (t, p2) = match parse_level(chars, p, 5, host) {
                Ok(t) => t,
                Err(e) => {
                    proof {
                        let full = lex_list_rest(chars@, p as int, gsaw);
                        assert(lex_primary(chars@, pos as int) == full);
                        if m.out is Ok {
                            assert(e is SyntaxError && m.saw_markup);
                            let p2m = m.out->Ok_0;
                            if m.lit {
                                let q = skip_ws_at(chars@, p2m);
                                if q < n as int && chars@[q] as u32 == 44 {
                                    let p3 = skip_ws_at(chars@, q + 1);
                                    if !(p3 <= p as int || p3 > n as int) {
                                        lemma_list_rest_saw(chars@, p3);
                                        assert(full.saw_markup);
                                    } else {
                                        assert(full.saw_markup);
                                    }
                                } else {
                                    assert(full.saw_markup);
                                }
                            } else {
                                assert(full.saw_markup);
                            }
                        } else {
                            assert(full.out == m.out);
                            assert(lex_agrees(Err::<(ExpressionToken, usize), EngineError>(e), full));
                        }
                    }
                    return Err(e);
                },
            };
            if !is_literal_token_exec(&t) {
                return Err(EngineError::SyntaxError { position: elem_pos });
            }
            items.push(t);
            let q = skip_ws(chars, p2);
            if q < n && chars[q] as u32 == 44 {
                p = skip_ws(chars, q + 1);
                proof {
                    gsaw = gsaw || m.saw_markup;
                }
            } else if q < n && chars[q] as u32 == 93 {
                return Ok((ExpressionToken::List(items), q + 1));
            } else {
                return Err(EngineError::SyntaxError { position: q });
            }
        }
    } else if is_ident_start(chars[pos]) {
        let (word, p) = scan_ident(chars, pos);
        if ident_is(&word, "true") {
            Ok((ExpressionToken::Boolean(true), p))
        } else if ident_is(&word, "false") {
            Ok((ExpressionToken::Boolean(false), p))
        } else if ident_is(&word, "if") {
            parse_if(chars, p, pos, host)
        } else if ident_is(&word, "for") {
            parse_for(chars, p, pos, host)
        } else if ident_is(&word, "else") || ident_is(&word, "in") || ident_is(&word, "and")
            || ident_is(&word, "or") {
            Err(EngineError::SyntaxError { position: pos })
        } else {
            Ok((ExpressionToken::Ident(word), p))
        }
    } else {
        Err(EngineError::SyntaxError { position: pos })
    }
}

/// Reads the remainder of a conditional after the `if` keyword: the
/// condition, the braced then branch, and an optional braced else.
fn parse_if<H: Host>(chars: &Vec<char>, pos: usize, start: usize, host: &H) -> (res: Result<
    (ExpressionToken, usize),
    EngineError,
>)
    requires
        start < pos <= chars@.len(),
    ensures
        res matches Ok(t) ==> wf_token(t.0) && start < t.1 <= chars@.len(),
        res matches Err(e) ==> e is SyntaxError,
        lex_agrees(res, lex_if(chars@, pos as int)),
    decreases chars@.len() - pos, 8int,
{
    let n = chars.len();
    let (condition, p1) = match parse_level(chars, pos, 5, host) {
        Ok(t) => t,
        Err(e) => {
            return Err(e);
        },
    };
    let (then_branch, p2) = match parse_block(chars, p1, host) {
        Ok(t) => t,
        Err(e) => {
            return Err(e);
        },
    };
    // an optional else branch
    let q = skip_ws(chars, p2);
    if q < n && is_ident_start(chars[q]) {
        let (word, q2) = scan_ident(chars, q);
        if ident_is(&word, "else") {
            let (else_branch, p3) = match parse_block(chars, q2, host) {
                Ok(t) => t,
                Err(e) => {
                    return Err(e);
                },
            };
            return Ok(
                (
                    ExpressionToken::IfExpression {
                        condition: Box::new(condition),
                        then_branch: Box::new(then_branch),
                        else_branch: Some(Box::new(else_branch)),
                    },
                    p3,
                ),
            );
        }
    }
    Ok(
        (
            ExpressionToken::IfExpression {
                condition: Box::new(condition),
                then_branch: Box::new(then_branch),
                else_branch: None,
            },
            p2,
        ),
    )
}

/// Reads the remainder of a loop after the `for` keyword: the binding
/// name, the `in` keyword, the iterable, and the braced body.
fn parse_for<H: Host>(chars: &Vec<char>, pos: usize, start: usize, host: &H) -> (res: Result<
    (ExpressionToken, usize),
    EngineError,
>)
    requires
        start < pos <= chars@.len(),
    ensures
        res matches Ok(t) ==> wf_token(t.0) && start < t.1 <= chars@.len(),
        res matches Err(e) ==> e is SyntaxError,
        lex_agrees(res, lex_for(chars@, pos as int)),
    decreases chars@.len() - pos, 8int,
{
    let n = chars.len();
    let p = skip_ws(chars, pos);
    if p >= n || !is_ident_start(chars[p]) {
        return Err(EngineError::SyntaxError { position: p });
    }
    let (ident, p1) = scan_ident(chars, p);
    let q = skip_ws(chars, p1);
    if q >= n || !is_ident_start(chars[q]) {
        return Err(EngineError::SyntaxError { position: q });
    }
    let (word, q1) = scan_ident(chars, q);
    if !ident_is(&word, "in") {
        return Err(EngineError::SyntaxError { position: q });
    }
    let (iterable, p2) = match parse_level(chars, q1, 5, host) {
        Ok(t) => t,
        Err(e) => {
            return Err(e);
        },
    };
    let (body, p3) = match parse_block(chars, p2, host) {
        Ok(t) => t,
        Err(e) => {
            return Err(e);
        },
    };
    Ok(
        (
            ExpressionToken::ForExpression {
                ident,
                iterable: Box::new(iterable),
                body: Box::new(body),
            },
            p3,
        ),
    )
}

/// Reads a braced block holding one expression.
fn parse_block<H: Host>(chars: &Vec<char>, pos: usize, host: &H) -> (res: Result<
    (ExpressionToken, usize),
    EngineError,
>)
    requires
        pos <= chars@.len(),
    ensures
        res matches Ok(t) ==> wf_token(t.0) && pos <= t.1 <= chars@.len(),
        res matches Err(e) ==> e is SyntaxError,
        lex_agrees(res, lex_block(chars@, pos as int)),
    decreases chars@.len() - pos, 8int,
{
    let n = chars.len();
    let p = skip_ws(chars, pos);
    if p >= n || chars[p] as u32 != 123 {
        return Err(EngineError::SyntaxError { position: p });
    }
    let (inner, p1) = match parse_level(chars, p + 1, 5, host) {
        Ok(t) => t,
        Err(e) => {
            return Err(e);
        },
    };
    let q = skip_ws(chars, p1);
    if q < n && chars[q] as u32 == 125 {
        Ok((inner, q + 1))
    } else {
        Err(EngineError::SyntaxError { position: q })
    }
}

/// Reads the arguments of a call after its opening parenthesis:
/// comma-separated expressions, each either positional or named by a
/// leading identifier and equals sign, up to the closing parenthesis.
#[verifier::loop_isolation(false)]
fn parse_args<H: Host>(chars: &Vec<char>, pos: usize, host: &H) -> (res: Result<
    (Vec<ExpressionToken>, Vec<(String, ExpressionToken)>, usize),
    EngineError,
>)
    requires
        pos <= chars@.len(),
    ensures
        res matches Ok(t) ==> pos < t.2 <= chars@.len() && (forall|j: int|
            0 <= j < t.0@.len() ==> wf_token(#[trigger] t.0@[j])) && (forall|j: int|
            0 <= j < t.1@.len() ==> wf_token((#[trigger] t.1@[j]).1)),
        res matches Err(e) ==> e is SyntaxError,
        lex_agrees_args(res, lex_args(chars@, pos as int)),
    decreases chars@.len() - pos, 8int,
{
    let n = chars.len();
    let mut args: Vec<ExpressionToken> = Vec::new();
    let mut kwargs: Vec<(String, ExpressionToken)> = Vec::new();
    let mut p = skip_ws(chars, pos);
    if p < n && chars[p] as u32 == 41 {
        return Ok((args, kwargs, p + 1));
    }
    let ghost mut gsaw = false;
    loop
        invariant
            pos <= p <= chars@.len(),
            n == chars@.len(),
            forall|j: int| 0 <= j < args@.len() ==> wf_token(#[trigger] args@[j]),
            forall|j: int| 0 <= j < kwargs@.len() ==> wf_token((#[trigger] kwargs@[j]).1),
            lex_args(chars@, pos as int) == lex_args_rest(chars@, p as int, gsaw),
        decreases chars@.len() - p,
    {
        let ghost pinit = p as int;
        // a named argument: an identifier, `=`, and a value
        let mut named = false;
        let mut vstart = p;
        let mut kwname = String::new();
        if p < n && is_ident_start(chars[p]) {
            let (name, p1) = scan_ident(chars, p);
            let q = skip_ws(chars, p1);
            if q < n && chars[q] as u32 == 61 && !(q + 1 < n && chars[q + 1] as u32 == 61) {
                vstart = skip_ws(chars, q + 1);
                named = true;
                kwname = name;
            }
        }
        let ghost m = lex_level(chars@, vstart as int, 5);
        let (value, p2) = match parse_level(chars, vstart, 5, host) {
            Ok(t) => t,
            Err(e) => {
                proof {
                    if m.out is Ok {
                        let p2m = m.out->Ok_0;
                        let q2 = skip_ws_at(chars@, p2m);
                        if q2 < n as int && chars@[q2] as u32 == 44 {
                            let p3 = skip_ws_at(chars@, q2 + 1);
                            if !(p3 <= pinit || p3 > n as int) {
                                lemma_args_rest_saw(chars@, p3);
                            }
                        }
                    }
                }
                return Err(e);
            },
        };
        if named {
            kwargs.push((kwname, value));
        } else {
            args.push(value);
        }
        p = p2;
        let q = skip_ws(chars, p);
        if q < n && chars[q] as u32 == 44 {
            p = skip_ws(chars, q + 1);
            proof {
                gsaw = gsaw || m.saw_markup;
            }
        } else if q < n && chars[q] as u32 == 41 {
            return Ok((args, kwargs, q + 1));
        } else {
            return Err(EngineError::SyntaxError { position: q });
        }
    }
}

/// Reads one postfix chain: a primary operand followed by any run of
/// field accesses, index accesses and call applications, left to right.
#[verifier::loop_isolation(false)]
fn parse_postfix<H: Host>(chars: &Vec<char>, pos: usize, host: &H) -> (res: Result<
    (ExpressionToken, usize),
    EngineError,
>)
    requires
        pos <= chars@.len(),
    ensures
        res matches Ok(t) ==> wf_token(t.0) && pos < t.1 <= chars@.len(),
        res matches Err(e) ==> e is SyntaxError,
        lex_agrees(res, lex_postfix(chars@, pos as int)),
    decreases chars@.len() - pos, 1int,
{
    let n = chars.len();
    let ghost m0 = lex_primary(chars@, pos as int);
    let (first, p0) = match parse_primary(chars, pos, host) {
        Ok(t) => t,
        Err(e) => {
            proof {
                if m0.out is Ok {
                    let e0 = m0.out->Ok_0;
                    if !(e0 <= pos as int || e0 > chars@.len()) {
                        lemma_post_rest_saw(chars@, e0, m0.lit);
                    }
                }
            }
            return Err(e);
        },
    };
    let mut acc = first;
    let mut p = p0;
    let ghost mut gsaw = m0.saw_markup;
    let ghost mut glit = m0.lit;
    loop
        invariant
            pos < p <= chars@.len(),
            n == chars@.len(),
            wf_token(acc),
            literal_token(acc) == glit,
            lex_postfix(chars@, pos as int) == lex_post_rest(chars@, p as int, gsaw, glit),
        decreases chars@.len() - p,
    {
        let ghost pinit = p as int;
        if p < n && chars[p] as u32 == 46 {
            // field access
            if p + 1 < n && is_ident_start(chars[p + 1]) {
                let (name, p2) = scan_ident(chars, p + 1);
                acc = ExpressionToken::FieldAccess(Box::new(acc), name);
                p = p2;
                proof {
                    glit = false;
                }
            } else {
                return Err(EngineError::SyntaxError { position: p });
            }
        } else if p < n && chars[p] as u32 == 91 {
            // index access
            let s1 = skip_ws(chars, p + 1);
            let ghost mi = lex_level(chars@, s1 as int, 5);
            let (index, p2) = match parse_level(chars, s1, 5, host) {
                Ok(t) => t,
                Err(e) => {
                    proof {
                        if mi.out is Ok {
                            let e2 = mi.out->Ok_0;
                            let q = skip_ws_at(chars@, e2);
                            if q < n as int && chars@[q] as u32 == 93 && !(q + 1 <= pinit) {
                                lemma_post_rest_saw(chars@, q + 1, false);
                            }
                        }
                    }
                    return Err(e);
                },
            };
            let q = skip_ws(chars, p2);
            if q < n && chars[q] as u32 == 93 {
                acc = ExpressionToken::IndexAccess(Box::new(acc), Box::new(index));
                p = q + 1;
                proof {
                    gsaw = gsaw || mi.saw_markup;
                    glit = false;
                }
            } else {
                return Err(EngineError::SyntaxError { position: q });
            }
        } else if p < n && chars[p] as u32 == 40 {
            // call application
            let ghost ma = lex_args(chars@, p as int + 1);
            let (args, kwargs, p2) = match parse_args(chars, p + 1, host) {
                Ok(t) => t,
                Err(e) => {
                    proof {
                        if ma.out is Ok {
                            let e2 = ma.out->Ok_0;
                            if !(e2 <= pinit || e2 > chars@.len()) {
                                lemma_post_rest_saw(chars@, e2, false);
                            }
                        }
                    }
                    return Err(e);
                },
            };
            acc = ExpressionToken::FuncCall { target: Box::new(acc), args, kwargs };
            p = p2;
            proof {
                gsaw = gsaw || ma.saw_markup;
                glit = false;
            }
        } else {
            return Ok((acc, p));
        }
    }
}

/// Reads one expression of the given precedence tier: operands of the
/// next tighter tier, alternating with this tier's operators. A chain
/// becomes one binary token list; a lone operand passes through.
#[verifier::loop_isolation(false)]
fn parse_level<H: Host>(chars: &Vec<char>, pos: usize, level: u8, host: &H) -> (res: Result<
    (ExpressionToken, usize),
    EngineError,
>)
    requires
        pos <= chars@.len(),
        level <= 5,
    ensures
        res matches Ok(t) ==> wf_token(t.0) && pos < t.1 <= chars@.len(),
        res matches Err(e) ==> e is SyntaxError,
        lex_agrees(res, lex_level(chars@, pos as int, level)),
    decreases chars@.len() - pos, level + 2int,
{
    let n = chars.len();
    let start = skip_ws(chars, pos);
    let ghost m0 = if level == 0 {
        lex_postfix(chars@, start as int)
    } else {
        lex_level(chars@, start as int, (level - 1) as u8)
    };
    let (first, p0) = match (if level == 0 {
        parse_postfix(chars, start, host)
    } else {
        parse_level(chars, start, level - 1, host)
    }) {
        Ok(t) => t,
        Err(e) => {
            proof {
                if m0.out is Ok {
                    let e0 = m0.out->Ok_0;
                    if !(e0 <= pos as int || e0 > chars@.len()) {
                        lemma_level_rest_saw(chars@, e0, level, m0.lit);
                    }
                }
            }
            return Err(e);
        },
    };
    let mut toks: Vec<ExpressionToken> = Vec::new();
    toks.push(first);
    let mut p = p0;
    let ghost mut gsaw = m0.saw_markup;
    let ghost mut glit = m0.lit;
    loop
        invariant
            pos < p <= chars@.len(),
            n == chars@.len(),
            toks@.len() >= 1,
            toks@.len() % 2 == 1,
            forall|j: int|
                0 <= j < toks@.len() && j % 2 == 0 ==> wf_token(#[trigger] toks@[j]) && !(toks@[j]
                    is Operator),
            forall|j: int| 0 <= j < toks@.len() && j % 2 == 1 ==> (#[trigger] toks@[j]) is Operator,
            toks@.len() == 1 ==> literal_token(toks@[0]) == glit,
            toks@.len() > 1 ==> !glit,
            lex_level(chars@, pos as int, level) == lex_level_rest(
                chars@,
                p as int,
                level,
                gsaw,
                glit,
            ),
        decreases chars@.len() - p,
    {
        let ghost pinit = p as int;
        let q = skip_ws(chars, p);
        match match_op(chars, q, level) {
            Some((op, q2)) => {
                let vstart = if level == 0 {
                    skip_ws(chars, q2)
                } else {
                    q2
                };
                let ghost m2 = if level == 0 {
                    lex_postfix(chars@, vstart as int)
                } else {
                    lex_level(chars@, vstart as int, (level - 1) as u8)
                };
                let (operand, p2) = match (if level == 0 {
                    parse_postfix(chars, vstart, host)
                } else {
                    parse_level(chars, vstart, level - 1, host)
                }) {
                    Ok(t) => t,
                    Err(e) => {
                        proof {
                            if m2.out is Ok {
                                let e2 = m2.out->Ok_0;
                                if !(e2 <= pinit || e2 > chars@.len()) {
                                    lemma_level_rest_saw(chars@, e2, level, false);
                                }
                            }
                        }
                        return Err(e);
                    },
                };
                toks.push(ExpressionToken::Operator(op));
                toks.push(operand);
                p = p2;
                proof {
                    gsaw = gsaw || m2.saw_markup;
                    glit = false;
                }
            },
            None => {
                if toks.len() == 1 {
                    let t = match toks.pop() {
                        Some(t) => t,
                        None => {
                            return Err(EngineError::SyntaxError { position: p });
                        },
                    };
                    return Ok((t, p));
                }
                return Ok((ExpressionToken::BinaryExpression(toks), p));
            },
        }
    }
}

/// The expression reader.
#[derive(Debug)]
pub struct ExpressionParser;

impl ExpressionParser {
    /// Tokenizes one whole expression: reads it against the grammar and
    /// demands that nothing but blank space follows. The result is a
    /// well-formed token tree; input holding nothing but blank space is
    /// an empty-expression error — exactly then — and any text outside
    /// the grammar is a syntax error carrying the offending position.
    pub fn tokenize<H: Host>(source: &str, host: &H) -> (res: Result<ExpressionToken, EngineError>)
        ensures
            res matches Ok(t) ==> wf_token(t),
            res matches Err(e) ==> (e is SyntaxError || e is EmptyExpression),
            (res matches Err(e) && e is EmptyExpression) <==> (forall|i: int|
                0 <= i < source@.len() ==> ws_char(#[trigger] source@[i])),
            match lex_expr(source@).out {
                Ok(e) => {
                    &&& (res matches Err(er) ==> er is SyntaxError && lex_expr(
                        source@,
                    ).saw_markup)
                    &&& (!lex_expr(source@).saw_markup ==> res is Ok)
                },
                Err(e) => (res matches Err(er) && (er == e || (er is SyntaxError && lex_expr(
                    source@,
                ).saw_markup))),
            },
    {
        let chars = to_chars(source);
        let p = skip_ws(&chars, 0);
        if p >= chars.len() {
            return Err(EngineError::EmptyExpression { position: p });
        }
        let (tok, p1) = match parse_level(&chars, p, 5, host) {
            Ok(t) => t,
            Err(e) => {
                return Err(e);
            },
        };
        let q = skip_ws(&chars, p1);
        if q < chars.len() {
            return Err(EngineError::SyntaxError { position: q });
        }
        Ok(tok)
    }
}

/// Tokenizes one whole expression; see `ExpressionParser::tokenize`.
pub fn tokenize<H: Host>(source: &str, host: &H) -> (res: Result<ExpressionToken, EngineError>)
    ensures
        res matches Ok(t) ==> wf_token(t),
        res matches Err(e) ==> (e is SyntaxError || e is EmptyExpression),
        (res matches Err(e) && e is EmptyExpression) <==> (forall|i: int|
            0 <= i < source@.len() ==> ws_char(#[trigger] source@[i])),
        match lex_expr(source@).out {
            Ok(e) => {
                &&& (res matches Err(er) ==> er is SyntaxError && lex_expr(source@).saw_markup)
                &&& (!lex_expr(source@).saw_markup ==> res is Ok)
            },
            Err(e) => (res matches Err(er) && (er == e || (er is SyntaxError && lex_expr(
                source@,
            ).saw_markup))),
        },
{
    ExpressionParser::tokenize(source, host)
}

} // verus!
