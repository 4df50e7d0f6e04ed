//! Parsing of the type-declaration surface language: value types
//! (`i32`, `f32`, `u32`, `u32[N]`, `[N]`, and argument arrows such as
//! `x: [1024], y: [1024] -> f32`, possibly parenthesized) and node-type
//! declarations (`Name = in @ type; ... => out @ type; ...`). Whitespace
//! and `//` line comments are ignored.

use vstd::prelude::*;

verus! {

use crate::text::str_eq_str;
use crate::typetypes::{
    al_insert,
    al_sorted,
    Arg,
    ArgsV,
    args_insert,
    lemma_al_insert_sorted,
    lemma_args_view,
    PrimitiveType,
    tv_wf,
    TypeError,
    TypeV,
    U32Boundedness,
    ValueType,
};
use crate::nodegraph::{
    ExecutionInformation,
    InputInfo,
    NodeTypeInfo,
    NodeTypeV,
    nt_wf,
    OutputInfo,
    SimpleTypeWorld,
    world_wf,
    WorldV,
};

// ----------------------------------------------------------------------
// The grammar, as functions over the character sequence. Each parsing
// method of the scanner is pinned to its twin here, so a parse result is
// exactly what these functions assign to the input text. The twins carry
// the cursor explicitly: a token function returns its value and the cursor
// afterwards. Guards of the form `p <= i` keep the recursion visibly
// well-founded; the cursor never actually moves backward, so they are
// never taken.

/// Whether a character is whitespace.
pub open spec fn sp_is_ws(c: char) -> bool {
    c == ' ' || c == '\t' || c == '\r' || c == '\n'
}

/// Whether a character can start an identifier.
pub open spec fn sp_is_alpha(c: char) -> bool {
    'a' <= c <= 'z' || 'A' <= c <= 'Z'
}

/// Whether a character is a decimal digit.
pub open spec fn sp_is_digit(c: char) -> bool {
    '0' <= c <= '9'
}

/// Whether a character can continue an identifier.
pub open spec fn sp_is_ident_char(c: char) -> bool {
    sp_is_alpha(c) || sp_is_digit(c)
}

/// The cursor after skipping whitespace and `//` line comments.
pub open spec fn sp_skip_ws(s: Seq<char>, i: int) -> int
    decreases s.len() - i, 0int,
{
    if 0 <= i < s.len() && sp_is_ws(s[i]) {
        sp_skip_ws(s, i + 1)
    } else if 0 <= i && i + 1 < s.len() && s[i] == '/' && s[i + 1] == '/' {
        sp_skip_comment(s, i + 2)
    } else {
        i
    }
}

/// The cursor after skipping the rest of a comment line, and any
/// whitespace after it.
pub open spec fn sp_skip_comment(s: Seq<char>, i: int) -> int
    decreases s.len() - i, 1int,
{
    if 0 <= i < s.len() && s[i] != '\n' {
        sp_skip_comment(s, i + 1)
    } else {
        sp_skip_ws(s, i)
    }
}

/// The cursor after the identifier characters starting at `i`.
pub open spec fn sp_ident_end(s: Seq<char>, i: int) -> int
    decreases s.len() - i,
{
    if 0 <= i < s.len() && sp_is_ident_char(s[i]) {
        sp_ident_end(s, i + 1)
    } else {
        i
    }
}

/// An identifier token: a letter, then letters and digits, after
/// whitespace. Without one the cursor stands where skipping left it.
pub open spec fn sp_parse_ident(s: Seq<char>, i: int) -> (Option<Seq<char>>, int) {
    let j = sp_skip_ws(s, i);
    if 0 <= j < s.len() && sp_is_alpha(s[j]) {
        let e = sp_ident_end(s, j);
        (Some(s.subrange(j, e)), e)
    } else {
        (None, j)
    }
}

/// A single-character token, after whitespace. On a mismatch the cursor
/// stands after the skipped whitespace.
pub open spec fn sp_try_char(s: Seq<char>, i: int, t: char) -> (bool, int) {
    let j = sp_skip_ws(s, i);
    if 0 <= j < s.len() && s[j] == t {
        (true, j + 1)
    } else {
        (false, j)
    }
}

/// A whole-word token: an identifier that equals `t` exactly. On a
/// mismatch the cursor stays at `i`.
pub open spec fn sp_try_word(s: Seq<char>, i: int, t: Seq<char>) -> (bool, int) {
    let (o, e) = sp_parse_ident(s, i);
    if o == Some(t) {
        (true, e)
    } else {
        (false, i)
    }
}

/// Whether only whitespace and comments remain.
pub open spec fn sp_at_end(s: Seq<char>, i: int) -> bool {
    sp_skip_ws(s, i) >= s.len()
}

/// The digits of a decimal number, accumulated left to right; a number
/// beyond `u32` is rejected where its next digit would overflow.
pub open spec fn sp_u32_loop(s: Seq<char>, i: int, acc: u32) -> (Option<u32>, int)
    decreases s.len() - i,
{
    if 0 <= i < s.len() && sp_is_digit(s[i]) {
        let d = (s[i] as u32) - ('0' as u32);
        if acc > (u32::MAX - d) / 10 {
            (None, i)
        } else {
            sp_u32_loop(s, i + 1, (acc * 10 + d) as u32)
        }
    } else {
        (Some(acc), i)
    }
}

/// A decimal number that fits in `u32`, after whitespace.
pub open spec fn sp_parse_u32(s: Seq<char>, i: int) -> (Option<u32>, int) {
    let j = sp_skip_ws(s, i);
    if 0 <= j < s.len() && sp_is_digit(s[j]) {
        sp_u32_loop(s, j, 0)
    } else {
        (None, j)
    }
}

/// A primitive type: `i32`, `f32`, `u32`, `u32[N]`, or `[N]`.
pub open spec fn sp_parse_primitive(s: Seq<char>, i: int) -> (Option<PrimitiveType>, int) {
    let (b1, p1) = sp_try_word(s, i, "i32"@);
    if b1 {
        (Some(PrimitiveType::I32), p1)
    } else {
        let (b2, p2) = sp_try_word(s, p1, "f32"@);
        if b2 {
            (Some(PrimitiveType::F32), p2)
        } else {
            let (b3, p3) = sp_try_word(s, p2, "u32"@);
            if b3 {
                let (bo, po) = sp_try_char(s, p3, '[');
                if bo {
                    sp_bound_tail(s, po)
                } else {
                    (Some(PrimitiveType::U32(U32Boundedness::Unbounded)), po)
                }
            } else {
                let (bo, po) = sp_try_char(s, p3, '[');
                if bo {
                    sp_bound_tail(s, po)
                } else {
                    (None, po)
                }
            }
        }
    }
}

/// The `N]` tail of a bounded `u32`.
pub open spec fn sp_bound_tail(s: Seq<char>, i: int) -> (Option<PrimitiveType>, int) {
    match sp_parse_u32(s, i) {
        (Some(n), pn) => {
            let (bc, pc) = sp_try_char(s, pn, ']');
            if bc {
                (Some(PrimitiveType::U32(U32Boundedness::Bounded(n))), pc)
            } else {
                (None, pc)
            }
        },
        (None, q) => (None, q),
    }
}

/// Whether `IDENT ':'` follows: the start of a named argument.
pub open spec fn sp_looks_like_arg(s: Seq<char>, i: int) -> bool {
    match sp_parse_ident(s, i) {
        (Some(_), e) => sp_try_char(s, e, ':').0,
        (None, _) => false,
    }
}

/// The `-> primitive` tail of an argument arrow, closing over the
/// accumulated arguments.
pub open spec fn sp_fn_tail(s: Seq<char>, i: int, acc: ArgsV) -> Option<(TypeV, int)> {
    let (b1, p1) = sp_try_char(s, i, '-');
    if !b1 {
        None
    } else {
        let (b2, p2) = sp_try_char(s, p1, '>');
        if !b2 {
            None
        } else {
            match sp_parse_primitive(s, p2) {
                (Some(pr), p3) => Some((TypeV { inputs: acc, output: pr }, p3)),
                (None, _) => None,
            }
        }
    }
}

/// One or more named arguments `IDENT ':' argtype`, comma-separated,
/// accumulated into a sorted list where a repeated name keeps its last
/// binding.
pub open spec fn sp_parse_args(s: Seq<char>, i: int, acc: ArgsV) -> Option<(ArgsV, int)>
    decreases s.len() - i, 0int,
{
    match sp_parse_ident(s, i) {
        (None, _) => None,
        (Some(nm), e) => {
            let (bc, pc) = sp_try_char(s, e, ':');
            if !bc {
                None
            } else if pc <= i || pc > s.len() {
                None
            } else {
                match sp_parse_arg_type(s, pc) {
                    None => None,
                    Some((t, pt)) => {
                        let acc2 = al_insert(acc, nm, t);
                        let (bm, pm) = sp_try_char(s, pt, ',');
                        if bm {
                            if pm <= i || pm > s.len() {
                                None
                            } else {
                                sp_parse_args(s, pm, acc2)
                            }
                        } else {
                            Some((acc2, pm))
                        }
                    },
                }
            }
        },
    }
}

/// An argument arrow `('()' | arg (',' arg)*) '->' primitive`.
pub open spec fn sp_parse_fn_type(s: Seq<char>, i: int) -> Option<(TypeV, int)>
    decreases s.len() - i, 1int,
{
    let (bp, pp) = sp_try_char(s, i, '(');
    if bp {
        let (bq, pq) = sp_try_char(s, pp, ')');
        if bq {
            sp_fn_tail(s, pq, Seq::empty())
        } else {
            None
        }
    } else {
        if pp < i || pp > s.len() {
            None
        } else {
            match sp_parse_args(s, pp, Seq::empty()) {
                None => None,
                Some((acc, pa)) => sp_fn_tail(s, pa, acc),
            }
        }
    }
}

/// An argument type: a primitive or a parenthesized arrow.
pub open spec fn sp_parse_arg_type(s: Seq<char>, i: int) -> Option<(TypeV, int)>
    decreases s.len() - i, 0int,
{
    let j = sp_skip_ws(s, i);
    if !(0 <= j < s.len()) {
        None
    } else if s[j] == '(' {
        if j < i {
            None
        } else {
            match sp_parse_fn_type(s, j + 1) {
                None => None,
                Some((t, pt)) => {
                    let (b, pb) = sp_try_char(s, pt, ')');
                    if b {
                        Some((t, pb))
                    } else {
                        None
                    }
                },
            }
        }
    } else {
        match sp_parse_primitive(s, j) {
            (Some(p), pp) => Some((TypeV { inputs: Seq::empty(), output: p }, pp)),
            (None, _) => None,
        }
    }
}

/// A value type: a primitive, an argument arrow, or a parenthesized
/// argument arrow.
pub open spec fn sp_parse_value_type(s: Seq<char>, i: int) -> Option<(TypeV, int)>
    decreases s.len() - i, 2int,
{
    let j = sp_skip_ws(s, i);
    if j < i || j > s.len() {
        None
    } else if sp_looks_like_arg(s, j) {
        sp_parse_fn_type(s, j)
    } else if 0 <= j < s.len() && s[j] == '(' {
        let (bq, pq) = sp_try_char(s, j + 1, ')');
        if bq {
            sp_parse_fn_type(s, j)
        } else if pq <= j || pq > s.len() {
            None
        } else {
            match sp_parse_fn_type(s, pq) {
                None => None,
                Some((t, pt)) => {
                    let (b, pb) = sp_try_char(s, pt, ')');
                    if b {
                        Some((t, pb))
                    } else {
                        None
                    }
                },
            }
        }
    } else {
        match sp_parse_primitive(s, j) {
            (Some(p), pp) => Some((TypeV { inputs: Seq::empty(), output: p }, pp)),
            (None, _) => None,
        }
    }
}

/// A cursor over the characters of a source text.
pub struct Scanner {
    pub text: String,
    pub chars: Vec<char>,
    pub pos: usize,
}

impl Scanner {
    /// The scanner reads the characters of its text, left to right.
    pub open spec fn wf(&self) -> bool {
        self.chars@ == self.text@ && self.pos <= self.chars@.len()
    }

    /// How many characters are left.
    pub open spec fn remaining(&self) -> int {
        self.chars@.len() - self.pos
    }

    /// A scanner at the start of the text.
    pub fn new(s: &str) -> (r: Scanner)
        ensures
            r.wf(),
            r.chars@ == s@,
            r.pos == 0,
    {
        let len = s.unicode_len();
        let mut chars: Vec<char> = Vec::new();
        for i in 0..len
            invariant
                len == s@.len(),
                chars@.len() == i,
                forall|j: int| 0 <= j < i ==> chars@[j] == s@[j],
        {
            chars.push(s.get_char(i));
        }
        proof {
            assert(chars@ =~= s@);
        }
        Scanner { text: s.to_owned(), chars, pos: 0 }
    }

    /// The next character, if any.
    pub(crate) fn peek(&self) -> (r: Option<char>)
        requires
            self.wf(),
        ensures
            match r {
                Some(c) => self.pos < self.chars@.len() && c == self.chars@[self.pos as int],
                None => self.pos == self.chars@.len(),
            },
    {
        if self.pos < self.chars.len() {
            Some(self.chars[self.pos])
        } else {
            None
        }
    }

    /// Moves one character ahead.
    pub(crate) fn bump(&mut self)
        requires
            old(self).wf(),
            old(self).pos < old(self).chars@.len(),
        ensures
            final(self).wf(),
            final(self).chars == old(self).chars,
            final(self).text == old(self).text,
            final(self).pos == old(self).pos + 1,
    {
        let len = self.chars.len();
        self.pos = self.pos + 1;
    }

    /// Skips whitespace and `//` line comments.
    pub(crate) fn skip_ws(&mut self)
        requires
            old(self).wf(),
        ensures
            final(self).wf(),
            final(self).chars == old(self).chars,
            final(self).text == old(self).text,
            final(self).pos >= old(self).pos,
            final(self).pos as int == sp_skip_ws(old(self).chars@, old(self).pos as int),
        decreases old(self).remaining(),
    {
        let ghost cs = self.chars@;
        let ghost i0 = self.pos as int;
        let len = self.chars.len();
        while self.pos < len && Self::is_ws_at(&self.chars, self.pos)
            invariant
                self.wf(),
                self.chars == old(self).chars,
                self.text == old(self).text,
                self.pos >= old(self).pos,
                len == self.chars@.len(),
                cs == self.chars@,
                sp_skip_ws(cs, i0) == sp_skip_ws(cs, self.pos as int),
            decreases len - self.pos,
        {
            self.pos = self.pos + 1;
        }
        if self.pos < len && self.chars[self.pos] == '/' {
            if self.pos + 1 < len && self.chars[self.pos + 1] == '/' {
                proof {
                    assert(!sp_is_ws(cs[self.pos as int]));
                    assert(sp_skip_ws(cs, self.pos as int) == sp_skip_comment(
                        cs,
                        self.pos as int + 2,
                    ));
                }
                self.pos = self.pos + 2;
                while self.pos < len && self.chars[self.pos] != '\n'
                    invariant
                        self.wf(),
                        self.chars == old(self).chars,
                        self.text == old(self).text,
                        self.pos > old(self).pos,
                        len == self.chars@.len(),
                        cs == self.chars@,
                        sp_skip_ws(cs, i0) == sp_skip_comment(cs, self.pos as int),
                    decreases len - self.pos,
                {
                    self.pos = self.pos + 1;
                }
                proof {
                    assert(sp_skip_comment(cs, self.pos as int) == sp_skip_ws(
                        cs,
                        self.pos as int,
                    ));
                }
                self.skip_ws();
                return ;
            }
        }
        proof {
            assert(sp_skip_ws(cs, self.pos as int) == self.pos as int);
        }
    }

    /// Consumes the given single-character token, after whitespace.
    pub(crate) fn try_char(&mut self, t: char) -> (r: bool)
        requires
            old(self).wf(),
        ensures
            final(self).wf(),
            final(self).chars == old(self).chars,
            final(self).text == old(self).text,
            final(self).pos >= old(self).pos,
            r ==> final(self).pos > old(self).pos,
            (r, final(self).pos as int) == sp_try_char(old(self).chars@, old(self).pos as int, t),
    {
        self.skip_ws();
        match self.peek() {
            Some(c) => {
                if c == t {
                    self.bump();
                    true
                } else {
                    false
                }
            },
            None => false,
        }
    }

    /// Whether the character at `i` is whitespace.
    pub(crate) fn is_ws_at(chars: &Vec<char>, i: usize) -> (r: bool)
        requires
            i < chars@.len(),
        ensures
            r == (chars@[i as int] == ' ' || chars@[i as int] == '\t' || chars@[i as int] == '\r'
                || chars@[i as int] == '\n'),
    {
        let c = chars[i];
        c == ' ' || c == '\t' || c == '\r' || c == '\n'
    }

    /// Whether the character at `i` can continue an identifier.
    pub(crate) fn is_ident_char_at(chars: &Vec<char>, i: usize) -> (r: bool)
        requires
            i < chars@.len(),
        ensures
            r == ('a' <= chars@[i as int] <= 'z' || 'A' <= chars@[i as int] <= 'Z' || '0'
                <= chars@[i as int] <= '9'),
    {
        let c = chars[i];
        Self::is_alpha(c) || Self::is_digit(c)
    }

    /// Whether the character can start an identifier.
    pub(crate) fn is_alpha(c: char) -> (r: bool)
        ensures
            r == ('a' <= c <= 'z' || 'A' <= c <= 'Z'),
    {
        ('a' <= c && c <= 'z') || ('A' <= c && c <= 'Z')
    }

    /// Whether the character is a decimal digit.
    pub(crate) fn is_digit(c: char) -> (r: bool)
        ensures
            r == ('0' <= c <= '9'),
    {
        '0' <= c && c <= '9'
    }

    /// Consumes an identifier (a letter, then letters and digits), after
    /// whitespace. Its text is returned.
    pub(crate) fn parse_ident(&mut self) -> (r: Option<String>)
        requires
            old(self).wf(),
        ensures
            final(self).wf(),
            final(self).chars == old(self).chars,
            final(self).text == old(self).text,
            final(self).pos >= old(self).pos,
            r is Some ==> final(self).pos > old(self).pos,
            match r {
                Some(w) => sp_parse_ident(old(self).chars@, old(self).pos as int) == (
                    Some(w@),
                    final(self).pos as int,
                ),
                None => sp_parse_ident(old(self).chars@, old(self).pos as int) == (
                    None::<Seq<char>>,
                    final(self).pos as int,
                ),
            },
    {
        let ghost cs = self.chars@;
        self.skip_ws();
        let len = self.chars.len();
        if self.pos >= len || !Self::is_alpha(self.chars[self.pos]) {
            return None;
        }
        let start = self.pos;
        while self.pos < len && Self::is_ident_char_at(&self.chars, self.pos)
            invariant
                self.wf(),
                self.chars == old(self).chars,
                self.text == old(self).text,
                start < self.pos || (start == self.pos && self.pos < len),
                start >= old(self).pos,
                len == self.chars@.len(),
                cs == self.chars@,
                sp_ident_end(cs, start as int) == sp_ident_end(cs, self.pos as int),
            decreases len - self.pos,
        {
            self.pos = self.pos + 1;
        }
        proof {
            assert(sp_ident_end(cs, self.pos as int) == self.pos as int);
        }
        let s = self.text.as_str().substring_char(start, self.pos);
        proof {
            assert(s@ == cs.subrange(start as int, self.pos as int));
        }
        Some(s.to_owned())
    }

    /// Consumes a decimal number that fits in `u32`, after whitespace.
    pub(crate) fn parse_u32(&mut self) -> (r: Option<u32>)
        requires
            old(self).wf(),
        ensures
            final(self).wf(),
            final(self).chars == old(self).chars,
            final(self).text == old(self).text,
            final(self).pos >= old(self).pos,
            r is Some ==> final(self).pos > old(self).pos,
            match r {
                Some(v) => sp_parse_u32(old(self).chars@, old(self).pos as int) == (
                    Some(v),
                    final(self).pos as int,
                ),
                None => sp_parse_u32(old(self).chars@, old(self).pos as int).0 is None,
            },
    {
        let ghost cs = self.chars@;
        let ghost i0 = self.pos as int;
        self.skip_ws();
        let len = self.chars.len();
        if self.pos >= len || !Self::is_digit(self.chars[self.pos]) {
            proof {
                assert(sp_parse_u32(cs, i0).0 is None);
            }
            return None;
        }
        let mut value: u32 = 0;
        let start = self.pos;
        let ghost target = sp_u32_loop(cs, start as int, 0);
        proof {
            assert(sp_parse_u32(cs, i0) == target);
        }
        while self.pos < len && Self::is_digit_at(&self.chars, self.pos)
            invariant
                self.wf(),
                self.chars == old(self).chars,
                self.text == old(self).text,
                self.pos >= start,
                start >= old(self).pos,
                len == self.chars@.len(),
                cs == self.chars@,
                i0 == old(self).pos as int,
                target == sp_u32_loop(cs, self.pos as int, value),
                sp_parse_u32(cs, i0) == target,
            decreases len - self.pos,
        {
            let c = self.chars[self.pos];
            let d = Self::digit_value(c);
            proof {
                assert((c as u32) - ('0' as u32) == d);
            }
            if value > (u32::MAX - d) / 10 {
                proof {
                    let ii = self.pos as int;
                    assert(cs[ii] == c);
                    assert(sp_is_digit(cs[ii]));
                    assert((cs[ii] as u32) - ('0' as u32) == d as int);
                    assert(value as int > (u32::MAX - ((cs[ii] as u32) - ('0' as u32))) / 10);
                    assert(sp_u32_loop(cs, ii, value).0 is None);
                    assert(target.0 is None);
                    assert(sp_parse_u32(cs, i0).0 is None);
                }
                return None;
            }
            value = value * 10 + d;
            self.pos = self.pos + 1;
        }
        proof {
            assert(target == (Some(value), self.pos as int));
            assert(sp_parse_u32(cs, i0) == (Some(value), self.pos as int));
        }
        Some(value)
    }

    /// Whether the character at `i` is a digit.
    pub(crate) fn is_digit_at(chars: &Vec<char>, i: usize) -> (r: bool)
        requires
            i < chars@.len(),
        ensures
            r == ('0' <= chars@[i as int] <= '9'),
    {
        Self::is_digit(chars[i])
    }

    /// The value of a digit character.
    pub(crate) fn digit_value(c: char) -> (r: u32)
        requires
            '0' <= c <= '9',
        ensures
            r <= 9,
            r == (c as u32) - ('0' as u32),
    {
        (c as u32) - ('0' as u32)
    }

    /// Whether the cursor stands at the end, after whitespace.
    pub(crate) fn at_end(&mut self) -> (r: bool)
        requires
            old(self).wf(),
        ensures
            final(self).wf(),
            final(self).chars == old(self).chars,
            final(self).text == old(self).text,
            final(self).pos >= old(self).pos,
            final(self).pos as int == sp_skip_ws(old(self).chars@, old(self).pos as int),
            r == sp_at_end(old(self).chars@, old(self).pos as int),
    {
        self.skip_ws();
        self.pos >= self.chars.len()
    }

    /// Consumes a word (letters and digits) if it equals `t` exactly, after
    /// whitespace; a longer word is not split. On a mismatch the cursor does
    /// not move.
    pub(crate) fn try_word(&mut self, t: &str) -> (r: bool)
        requires
            old(self).wf(),
        ensures
            final(self).wf(),
            final(self).chars == old(self).chars,
            final(self).text == old(self).text,
            final(self).pos >= old(self).pos,
            r ==> final(self).pos > old(self).pos,
            (r, final(self).pos as int) == sp_try_word(
                old(self).chars@,
                old(self).pos as int,
                t@,
            ),
    {
        let save = self.pos;
        match self.parse_ident() {
            Some(w) => {
                if str_eq_str(w.as_str(), t) {
                    true
                } else {
                    self.pos = save;
                    proof {
                        assert(self.wf());
                    }
                    false
                }
            },
            None => {
                self.pos = save;
                false
            },
        }
    }
}

/// The execution tag that a declared node-type name selects. Names that
/// match no emission rule get the sentinel tag.
pub open spec fn spec_tag_of_name(n: Seq<char>) -> ExecutionInformation {
    if n == "Add"@ {
        ExecutionInformation::Add
    } else if n == "Exp"@ {
        ExecutionInformation::Exp
    } else if n == "Constant"@ {
        ExecutionInformation::Constant
    } else if n == "Attr"@ {
        ExecutionInformation::Attr
    } else if n == "Out"@ {
        ExecutionInformation::Out
    } else if n == "Vec3"@ {
        ExecutionInformation::Vector3
    } else {
        ExecutionInformation::ERR
    }
}

/// The execution tag for a declared name.
pub fn tag_of_name(name: &str) -> (r: ExecutionInformation)
    ensures
        r == spec_tag_of_name(name@),
{
    if str_eq_str(name, "Add") {
        ExecutionInformation::Add
    } else if str_eq_str(name, "Exp") {
        ExecutionInformation::Exp
    } else if str_eq_str(name, "Constant") {
        ExecutionInformation::Constant
    } else if str_eq_str(name, "Attr") {
        ExecutionInformation::Attr
    } else if str_eq_str(name, "Out") {
        ExecutionInformation::Out
    } else if str_eq_str(name, "Vec3") {
        ExecutionInformation::Vector3
    } else {
        ExecutionInformation::ERR
    }
}

impl Scanner {
    /// Parses a primitive type: `i32`, `f32`, `u32`, `u32[N]`, or `[N]`.
    fn parse_primitive(&mut self) -> (r: Option<PrimitiveType>)
        requires
            old(self).wf(),
        ensures
            final(self).wf(),
            final(self).chars == old(self).chars,
            final(self).text == old(self).text,
            final(self).pos >= old(self).pos,
            r is Some ==> final(self).pos > old(self).pos,
            match r {
                Some(p) => sp_parse_primitive(old(self).chars@, old(self).pos as int) == (
                    Some(p),
                    final(self).pos as int,
                ),
                None => sp_parse_primitive(old(self).chars@, old(self).pos as int).0 is None,
            },
    {
        if self.try_word("i32") {
            Some(PrimitiveType::I32)
        } else if self.try_word("f32") {
            Some(PrimitiveType::F32)
        } else if self.try_word("u32") {
            if self.try_char('[') {
                match self.parse_u32() {
                    Some(n) => {
                        if self.try_char(']') {
                            Some(PrimitiveType::U32(U32Boundedness::Bounded(n)))
                        } else {
                            None
                        }
                    },
                    None => None,
                }
            } else {
                Some(PrimitiveType::U32(U32Boundedness::Unbounded))
            }
        } else if self.try_char('[') {
            match self.parse_u32() {
                Some(n) => {
                    if self.try_char(']') {
                        Some(PrimitiveType::U32(U32Boundedness::Bounded(n)))
                    } else {
                        None
                    }
                },
                None => None,
            }
        } else {
            None
        }
    }

    /// Whether the cursor stands before `IDENT ':'`, the start of a named
    /// argument. The cursor does not move.
    fn looks_like_arg(&mut self) -> (r: bool)
        requires
            old(self).wf(),
        ensures
            final(self).wf(),
            final(self).chars == old(self).chars,
            final(self).text == old(self).text,
            final(self).pos == old(self).pos,
            r == sp_looks_like_arg(old(self).chars@, old(self).pos as int),
    {
        let save = self.pos;
        let r = match self.parse_ident() {
            Some(_) => self.try_char(':'),
            None => false,
        };
        self.pos = save;
        proof {
            assert(self.wf());
        }
        r
    }

    /// Parses an argument arrow `('()' | arg (',' arg)*) '->' primitive`.
    /// The argument list of the result is sorted by name; a repeated name
    /// keeps its last binding.
    fn parse_fn_type(&mut self) -> (r: Option<ValueType>)
        requires
            old(self).wf(),
        ensures
            final(self).wf(),
            final(self).chars == old(self).chars,
            final(self).text == old(self).text,
            final(self).pos >= old(self).pos,
            match r {
                Some(v) => tv_wf(v@) && sp_parse_fn_type(old(self).chars@, old(self).pos as int)
                    == Some((v@, final(self).pos as int)),
                None => sp_parse_fn_type(old(self).chars@, old(self).pos as int) is None,
            },
        decreases old(self).remaining(), 1int,
    {
        let ghost cs = self.chars@;
        let ghost i0 = self.pos as int;
        let mut args: Vec<Arg> = Vec::new();
        proof {
            lemma_args_view(args@);
            assert(crate::typetypes::args_view(args@) =~= Seq::<(Seq<char>, TypeV)>::empty());
            assert(al_sorted(crate::typetypes::args_view(args@)));
        }
        let save = self.pos;
        if self.try_char('(') {
            if !self.try_char(')') {
                self.pos = save;
                proof {
                    assert(self.wf());
                    assert(sp_parse_fn_type(cs, i0) is None);
                }
                return None;
            }
            proof {
                assert(sp_parse_fn_type(cs, i0) == sp_fn_tail(
                    cs,
                    self.pos as int,
                    crate::typetypes::args_view(args@),
                ));
            }
        } else {
            // One or more named arguments.
            proof {
                assert(sp_parse_fn_type(cs, i0) == match sp_parse_args(
                    cs,
                    self.pos as int,
                    crate::typetypes::args_view(args@),
                ) {
                    None => None::<(TypeV, int)>,
                    Some((a, p)) => sp_fn_tail(cs, p, a),
                });
            }
            loop
                invariant_except_break
                    self.wf(),
                    self.chars == old(self).chars,
                    self.text == old(self).text,
                    self.pos >= old(self).pos,
                    cs == self.chars@,
                    i0 == old(self).pos as int,
                    al_sorted(crate::typetypes::args_view(args@)),
                    forall|j: int|
                        0 <= j < crate::typetypes::args_view(args@).len() ==> tv_wf(
                            #[trigger] crate::typetypes::args_view(args@)[j].1,
                        ),
                    sp_parse_fn_type(cs, i0) == match sp_parse_args(
                        cs,
                        self.pos as int,
                        crate::typetypes::args_view(args@),
                    ) {
                        None => None::<(TypeV, int)>,
                        Some((a, p)) => sp_fn_tail(cs, p, a),
                    },
                ensures
                    self.wf(),
                    self.chars == old(self).chars,
                    self.text == old(self).text,
                    self.pos >= old(self).pos,
                    al_sorted(crate::typetypes::args_view(args@)),
                    forall|j: int|
                        0 <= j < crate::typetypes::args_view(args@).len() ==> tv_wf(
                            #[trigger] crate::typetypes::args_view(args@)[j].1,
                        ),
                    sp_parse_fn_type(cs, i0) == sp_fn_tail(
                        cs,
                        self.pos as int,
                        crate::typetypes::args_view(args@),
                    ),
                decreases self.remaining(),
            {
                let ghost p_head = self.pos as int;
                let name = match self.parse_ident() {
                    Some(n) => n,
                    None => {
                        proof {
                            assert(sp_parse_args(
                                cs,
                                p_head,
                                crate::typetypes::args_view(args@),
                            ) is None);
                        }
                        return None;
                    },
                };
                if !self.try_char(':') {
                    proof {
                        assert(sp_parse_args(cs, p_head, crate::typetypes::args_view(args@))
                            is None);
                    }
                    return None;
                }
                let ty = match self.parse_arg_type() {
                    Some(t) => t,
                    None => {
                        proof {
                            assert(sp_parse_args(
                                cs,
                                p_head,
                                crate::typetypes::args_view(args@),
                            ) is None);
                        }
                        return None;
                    },
                };
                let ghost pre_args = crate::typetypes::args_view(args@);
                let ghost pre_name = name@;
                let ghost pre_ty = crate::typetypes::vt_view(ty);
                proof {
                    lemma_al_insert_sorted(pre_args, pre_name, pre_ty);
                }
                args_insert(&mut args, name, ty);
                proof {
                    crate::typetypes::lemma_al_insert_all_wf(pre_args, pre_name, pre_ty);
                }
                if !self.try_char(',') {
                    proof {
                        assert(sp_parse_args(cs, p_head, pre_args) == Some((
                            crate::typetypes::args_view(args@),
                            self.pos as int,
                        )));
                    }
                    break;
                }
                proof {
                    assert(sp_parse_args(cs, p_head, pre_args) == sp_parse_args(
                        cs,
                        self.pos as int,
                        crate::typetypes::args_view(args@),
                    ));
                }
            }
        }
        let ghost ta = crate::typetypes::args_view(args@);
        let ghost tp = self.pos as int;
        if !self.try_char('-') {
            proof {
                assert(sp_fn_tail(cs, tp, ta) is None);
            }
            return None;
        }
        if !self.try_char('>') {
            proof {
                assert(sp_fn_tail(cs, tp, ta) is None);
            }
            return None;
        }
        let prim = match self.parse_primitive() {
            Some(p) => p,
            None => {
                proof {
                    assert(sp_fn_tail(cs, tp, ta) is None);
                }
                return None;
            },
        };
        let v = ValueType { inputs: args, output: prim };
        proof {
            assert(tv_wf(v@));
            assert(sp_fn_tail(cs, tp, ta) == Some((v@, self.pos as int)));
        }
        Some(v)
    }

    /// Parses an argument type: a primitive or a parenthesized arrow.
    fn parse_arg_type(&mut self) -> (r: Option<ValueType>)
        requires
            old(self).wf(),
        ensures
            final(self).wf(),
            final(self).chars == old(self).chars,
            final(self).text == old(self).text,
            final(self).pos >= old(self).pos,
            match r {
                Some(v) => tv_wf(v@) && sp_parse_arg_type(old(self).chars@, old(self).pos as int)
                    == Some((v@, final(self).pos as int)),
                None => sp_parse_arg_type(old(self).chars@, old(self).pos as int) is None,
            },
        decreases old(self).remaining(), 0int,
    {
        let ghost cs = self.chars@;
        let ghost i0 = self.pos as int;
        self.skip_ws();
        match self.peek() {
            Some(c) => {
                if c == '(' {
                    self.bump();
                    let v = match self.parse_fn_type() {
                        Some(v) => v,
                        None => {
                            return None;
                        },
                    };
                    if self.try_char(')') {
                        Some(v)
                    } else {
                        None
                    }
                } else {
                    match self.parse_primitive() {
                        Some(p) => {
                            let v = ValueType::primitive(p);
                            proof {
                                assert(v@.inputs =~= Seq::<(Seq<char>, TypeV)>::empty());
                                assert(tv_wf(v@));
                                assert(v@ == TypeV { inputs: Seq::empty(), output: p });
                            }
                            Some(v)
                        },
                        None => None,
                    }
                }
            },
            None => None,
        }
    }

    /// Parses a value type: a primitive, an argument arrow, or a
    /// parenthesized argument arrow.
    fn parse_value_type(&mut self) -> (r: Option<ValueType>)
        requires
            old(self).wf(),
        ensures
            final(self).wf(),
            final(self).chars == old(self).chars,
            final(self).text == old(self).text,
            final(self).pos >= old(self).pos,
            match r {
                Some(v) => tv_wf(v@) && sp_parse_value_type(old(self).chars@, old(self).pos as int)
                    == Some((v@, final(self).pos as int)),
                None => sp_parse_value_type(old(self).chars@, old(self).pos as int) is None,
            },
        decreases old(self).remaining(), 2int,
    {
        let ghost cs = self.chars@;
        let ghost i0 = self.pos as int;
        self.skip_ws();
        if self.looks_like_arg() {
            return self.parse_fn_type();
        }
        match self.peek() {
            Some(c) => {
                if c == '(' {
                    // Either `() -> p` or a parenthesized arrow.
                    let save = self.pos;
                    self.bump();
                    if self.try_char(')') {
                        self.pos = save;
                        proof {
                            assert(self.wf());
                        }
                        self.parse_fn_type()
                    } else {
                        let v = match self.parse_fn_type() {
                            Some(v) => v,
                            None => {
                                return None;
                            },
                        };
                        if self.try_char(')') {
                            Some(v)
                        } else {
                            None
                        }
                    }
                } else {
                    match self.parse_primitive() {
                        Some(p) => {
                            let v = ValueType::primitive(p);
                            proof {
                                assert(v@.inputs =~= Seq::<(Seq<char>, TypeV)>::empty());
                                assert(tv_wf(v@));
                                assert(v@ == TypeV { inputs: Seq::empty(), output: p });
                            }
                            Some(v)
                        },
                        None => None,
                    }
                }
            },
            None => None,
        }
    }
}

/// A whole text as one argument arrow: the arrow with nothing but
/// whitespace and comments after it.
pub open spec fn spec_parse_fn_type_text(s: Seq<char>) -> Result<TypeV, TypeError> {
    match sp_parse_fn_type(s, 0) {
        Some((t, j)) => if sp_at_end(s, j) {
            Ok(t)
        } else {
            Err(TypeError::ParseFailure)
        },
        None => Err(TypeError::ParseFailure),
    }
}

/// A whole text as one value type: the type with nothing but whitespace
/// and comments after it.
pub open spec fn spec_parse_complete_value_type(s: Seq<char>) -> Result<TypeV, TypeError> {
    match sp_parse_value_type(s, 0) {
        Some((t, j)) => if sp_at_end(s, j) {
            Ok(t)
        } else {
            Err(TypeError::ParseFailure)
        },
        None => Err(TypeError::ParseFailure),
    }
}

/// The parser of argument arrows: the `args -> primitive` form alone,
/// without the bare-primitive shorthand.
pub struct FnTypeParser {}

impl FnTypeParser {
    /// Parses one complete argument arrow; trailing input or a bare
    /// primitive is a parse failure.
    pub fn parse(content: &str) -> (r: Result<ValueType, TypeError>)
        ensures
            match r {
                Ok(v) => tv_wf(v@) && spec_parse_fn_type_text(content@) == Ok::<TypeV, TypeError>(
                    v@,
                ),
                Err(e) => spec_parse_fn_type_text(content@) == Err::<TypeV, TypeError>(e),
            },
    {
        let mut sc = Scanner::new(content);
        match sc.parse_fn_type() {
            Some(v) => {
                if sc.at_end() {
                    Ok(v)
                } else {
                    Err(TypeError::ParseFailure)
                }
            },
            None => Err(TypeError::ParseFailure),
        }
    }
}

/// Parses one complete value type; trailing input is a parse failure.
pub fn parse_complete_value_type(content: &str) -> (r: Result<ValueType, TypeError>)
    ensures
        match r {
            Ok(v) => tv_wf(v@) && spec_parse_complete_value_type(content@) == Ok::<
                TypeV,
                TypeError,
            >(v@),
            Err(e) => spec_parse_complete_value_type(content@) == Err::<TypeV, TypeError>(e),
        },
{
    let mut sc = Scanner::new(content);
    match sc.parse_value_type() {
        Some(v) => {
            if sc.at_end() {
                Ok(v)
            } else {
                Err(TypeError::ParseFailure)
            }
        },
        None => Err(TypeError::ParseFailure),
    }
}

// ----------------------------------------------------------------------
// Node-type declarations.

/// The models of a vector of input-port declarations.
pub open spec fn sp_inslots(v: Seq<InputInfo>) -> Seq<crate::nodegraph::InputInfoV> {
    Seq::new(v.len(), |k: int| v[k]@)
}

/// The models of a vector of output-port declarations.
pub open spec fn sp_outslots(v: Seq<OutputInfo>) -> Seq<crate::nodegraph::OutputInfoV> {
    Seq::new(v.len(), |k: int| v[k]@)
}

/// Recovery after a malformed input-port type: the cursor moves past the
/// next `;` (another input follows) or to just after the `=` of the next
/// `=>` (the input list ends). With neither, the declaration is beyond
/// recovery.
pub open spec fn sp_input_recover(s: Seq<char>, i: int) -> Option<(bool, int)>
    decreases s.len() - i,
{
    if !(0 <= i < s.len()) {
        None
    } else if s[i] == ';' {
        Some((true, i + 1))
    } else if s[i] == '=' && i + 1 < s.len() && s[i + 1] == '>' {
        Some((false, i + 1))
    } else {
        sp_input_recover(s, i + 1)
    }
}

/// Whether a declaration begins at `i`: an identifier followed by `=`.
pub open spec fn sp_decl_follows(s: Seq<char>, i: int) -> bool {
    match sp_parse_ident(s, i) {
        (Some(_), e) => sp_try_char(s, e, '=').0,
        (None, _) => false,
    }
}

/// Recovery after a malformed output-port type: the cursor moves past the
/// next `;` (another output follows), or stops where the next declaration
/// or the end of the text begins (the output list ends).
pub open spec fn sp_output_recover(s: Seq<char>, i: int) -> (bool, int)
    decreases s.len() - i,
{
    if !(0 <= i < s.len()) {
        (false, s.len() as int)
    } else if s[i] == ';' {
        (true, i + 1)
    } else if sp_is_alpha(s[i]) && sp_decl_follows(s, i) {
        (false, i)
    } else {
        sp_output_recover(s, i + 1)
    }
}

/// The input ports of a declaration: `IDENT '@' value_type`, separated by
/// `;`, ended by the `=` of `=>`. A malformed port type becomes a port
/// whose slot holds the parse-failure sentinel.
pub open spec fn sp_parse_inputs(
    s: Seq<char>,
    i: int,
    acc: Seq<crate::nodegraph::InputInfoV>,
) -> Option<(Seq<crate::nodegraph::InputInfoV>, int)>
    decreases s.len() - i,
{
    match sp_parse_ident(s, i) {
        (None, _) => None,
        (Some(nm), e) => {
            let (ba, pa) = sp_try_char(s, e, '@');
            if !ba || pa <= i || pa > s.len() {
                None
            } else {
                match sp_parse_value_type(s, pa) {
                    Some((t, pt)) => {
                        let acc2 = acc.push(
                            crate::nodegraph::InputInfoV { name: nm, ty: Ok(t) },
                        );
                        let (bs, ps) = sp_try_char(s, pt, ';');
                        if bs {
                            if ps <= i || ps > s.len() {
                                None
                            } else {
                                sp_parse_inputs(s, ps, acc2)
                            }
                        } else {
                            let (be, pe) = sp_try_char(s, ps, '=');
                            if be {
                                Some((acc2, pe))
                            } else {
                                None
                            }
                        }
                    },
                    None => {
                        let acc2 = acc.push(
                            crate::nodegraph::InputInfoV {
                                name: nm,
                                ty: Err(TypeError::ParseFailure),
                            },
                        );
                        match sp_input_recover(s, pa) {
                            None => None,
                            Some((more, pr)) => {
                                if more {
                                    if pr <= i || pr > s.len() {
                                        None
                                    } else {
                                        sp_parse_inputs(s, pr, acc2)
                                    }
                                } else {
                                    Some((acc2, pr))
                                }
                            },
                        }
                    },
                }
            }
        },
    }
}

/// The output ports of a declaration: `IDENT '@' value_type`, separated by
/// `;`; the list ends where no further `IDENT '@'` follows. A malformed
/// port type becomes a port whose slot holds the parse-failure sentinel.
pub open spec fn sp_parse_outputs(
    s: Seq<char>,
    i: int,
    acc: Seq<crate::nodegraph::OutputInfoV>,
) -> Option<(Seq<crate::nodegraph::OutputInfoV>, int)>
    decreases s.len() - i,
{
    match sp_parse_ident(s, i) {
        (None, _) => Some((acc, i)),
        (Some(nm), e) => {
            let (ba, pa) = sp_try_char(s, e, '@');
            if !ba {
                Some((acc, i))
            } else if pa <= i || pa > s.len() {
                None
            } else {
                match sp_parse_value_type(s, pa) {
                    Some((t, pt)) => {
                        let acc2 = acc.push(
                            crate::nodegraph::OutputInfoV { name: Some(nm), ty: Ok(t) },
                        );
                        let (bs, ps) = sp_try_char(s, pt, ';');
                        if bs {
                            if ps <= i || ps > s.len() {
                                None
                            } else {
                                sp_parse_outputs(s, ps, acc2)
                            }
                        } else {
                            Some((acc2, ps))
                        }
                    },
                    None => {
                        let acc2 = acc.push(
                            crate::nodegraph::OutputInfoV {
                                name: Some(nm),
                                ty: Err(TypeError::ParseFailure),
                            },
                        );
                        let (more, pr) = sp_output_recover(s, pa);
                        if more {
                            if pr <= i || pr > s.len() {
                                None
                            } else {
                                sp_parse_outputs(s, pr, acc2)
                            }
                        } else {
                            Some((acc2, pr))
                        }
                    },
                }
            }
        },
    }
}

/// The `'>' outputs` tail of a declaration, closing over its name and
/// parsed inputs.
pub open spec fn sp_decl_tail(
    s: Seq<char>,
    nm: Seq<char>,
    ins_r: Option<(Seq<crate::nodegraph::InputInfoV>, int)>,
) -> Option<(Seq<char>, NodeTypeV, int)> {
    match ins_r {
        None => None,
        Some((ins, pi)) => {
            let (b3, p3) = sp_try_char(s, pi, '>');
            if !b3 {
                None
            } else {
                match sp_parse_outputs(s, p3, Seq::empty()) {
                    None => None,
                    Some((outs, po)) => Some(
                        (
                            nm,
                            NodeTypeV { inputs: ins, outputs: outs, tag: spec_tag_of_name(nm) },
                            po,
                        ),
                    ),
                }
            }
        },
    }
}

/// One node-type declaration `NAME '=' inputs '=>' outputs`.
pub open spec fn sp_parse_declaration(s: Seq<char>, i: int) -> Option<(Seq<char>, NodeTypeV, int)> {
    match sp_parse_ident(s, i) {
        (None, _) => None,
        (Some(nm), e) => {
            let (b1, p1) = sp_try_char(s, e, '=');
            if !b1 {
                None
            } else {
                let (b2, p2) = sp_try_char(s, p1, '=');
                let ins_r = if b2 {
                    Some((Seq::<crate::nodegraph::InputInfoV>::empty(), p2))
                } else {
                    if p2 > s.len() {
                        None
                    } else {
                        sp_parse_inputs(s, p2, Seq::empty())
                    }
                };
                sp_decl_tail(s, nm, ins_r)
            }
        },
    }
}

/// The declaration assembled from its name, inputs, and parsed outputs.
pub open spec fn sp_outs_tail(
    nm: Seq<char>,
    ins: Seq<crate::nodegraph::InputInfoV>,
    outs_r: Option<(Seq<crate::nodegraph::OutputInfoV>, int)>,
) -> Option<(Seq<char>, NodeTypeV, int)> {
    match outs_r {
        None => None,
        Some((outs, po)) => Some(
            (nm, NodeTypeV { inputs: ins, outputs: outs, tag: spec_tag_of_name(nm) }, po),
        ),
    }
}

/// Skipping whitespace twice is skipping it once.
proof fn lemma_skip_ws_fix(s: Seq<char>, i: int)
    ensures
        sp_skip_ws(s, sp_skip_ws(s, i)) == sp_skip_ws(s, i),
    decreases s.len() - i, 0int,
{
    if 0 <= i < s.len() && sp_is_ws(s[i]) {
        lemma_skip_ws_fix(s, i + 1);
    } else if 0 <= i && i + 1 < s.len() && s[i] == '/' && s[i + 1] == '/' {
        lemma_skip_comment_fix(s, i + 2);
    }
}

/// Skipping whitespace after skipping a comment changes nothing.
proof fn lemma_skip_comment_fix(s: Seq<char>, i: int)
    ensures
        sp_skip_ws(s, sp_skip_comment(s, i)) == sp_skip_comment(s, i),
    decreases s.len() - i, 1int,
{
    if 0 <= i < s.len() && s[i] != '\n' {
        lemma_skip_comment_fix(s, i + 1);
    } else {
        lemma_skip_ws_fix(s, i);
    }
}

/// A declaration reads the same from before or after the whitespace ahead
/// of it, and so does the end-of-text check.
proof fn lemma_decl_after_skip(s: Seq<char>, i: int)
    ensures
        sp_parse_declaration(s, sp_skip_ws(s, i)) == sp_parse_declaration(s, i),
        sp_at_end(s, sp_skip_ws(s, i)) == sp_at_end(s, i),
{
    lemma_skip_ws_fix(s, i);
}

/// A whole type-declaration file: declarations in sequence; the registry
/// holds, per declared name, the last declaration of that name.
pub open spec fn sp_world_loop(s: Seq<char>, i: int, acc: WorldV) -> Result<WorldV, TypeError>
    decreases s.len() - i,
{
    if sp_at_end(s, i) {
        Ok(acc)
    } else {
        match sp_parse_declaration(s, i) {
            None => Err(TypeError::ParseFailure),
            Some((nm, nt, j)) => {
                if j <= i || j > s.len() {
                    Err(TypeError::ParseFailure)
                } else {
                    sp_world_loop(s, j, crate::nodegraph::world_declare(acc, nm, nt))
                }
            },
        }
    }
}

/// The registry a type-declaration text denotes.
pub open spec fn spec_parse_type_world(s: Seq<char>) -> Result<WorldV, TypeError> {
    sp_world_loop(s, 0, Seq::empty())
}

/// One step of the registry walk: a parsed declaration advances the loop.
proof fn lemma_world_step(s: Seq<char>, i: int, acc: WorldV, nm: Seq<char>, nt: NodeTypeV, j: int)
    requires
        !sp_at_end(s, i),
        sp_parse_declaration(s, i) == Some((nm, nt, j)),
        j > i,
        j <= s.len(),
    ensures
        sp_world_loop(s, i, acc) == sp_world_loop(s, j, crate::nodegraph::world_declare(acc, nm, nt)),
{
}

/// A failed declaration fails the registry walk.
proof fn lemma_world_step_err(s: Seq<char>, i: int, acc: WorldV)
    requires
        !sp_at_end(s, i),
        sp_parse_declaration(s, i) is None,
    ensures
        sp_world_loop(s, i, acc) == Err::<WorldV, TypeError>(TypeError::ParseFailure),
{
}

/// An exhausted text ends the registry walk.
proof fn lemma_world_step_end(s: Seq<char>, i: int, acc: WorldV)
    requires
        sp_at_end(s, i),
    ensures
        sp_world_loop(s, i, acc) == Ok::<WorldV, TypeError>(acc),
{
}

impl Scanner {
    /// After a malformed input-port type: moves past the next `;`, or to
    /// just after the `=` of the next `=>`; with neither the declaration is
    /// beyond recovery.
    fn recover_input(&mut self) -> (r: Option<bool>)
        requires
            old(self).wf(),
        ensures
            final(self).wf(),
            final(self).chars == old(self).chars,
            final(self).text == old(self).text,
            final(self).pos >= old(self).pos,
            match r {
                Some(more) => sp_input_recover(old(self).chars@, old(self).pos as int) == Some(
                    (more, final(self).pos as int),
                ) && final(self).pos > old(self).pos,
                None => sp_input_recover(old(self).chars@, old(self).pos as int) is None,
            },
    {
        let ghost cs = self.chars@;
        let ghost i0 = self.pos as int;
        let len = self.chars.len();
        while self.pos < len
            invariant
                self.wf(),
                self.chars == old(self).chars,
                self.text == old(self).text,
                self.pos >= old(self).pos,
                len == self.chars@.len(),
                cs == self.chars@,
                i0 == old(self).pos as int,
                sp_input_recover(cs, i0) == sp_input_recover(cs, self.pos as int),
            decreases len - self.pos,
        {
            let c = self.chars[self.pos];
            if c == ';' {
                self.pos = self.pos + 1;
                return Some(true);
            }
            if c == '=' && self.pos + 1 < len && self.chars[self.pos + 1] == '>' {
                self.pos = self.pos + 1;
                return Some(false);
            }
            self.pos = self.pos + 1;
        }
        None
    }

    /// After a malformed output-port type: moves past the next `;`, or
    /// stops where the next declaration or the end of the text begins.
    fn recover_output(&mut self) -> (r: bool)
        requires
            old(self).wf(),
        ensures
            final(self).wf(),
            final(self).chars == old(self).chars,
            final(self).text == old(self).text,
            final(self).pos >= old(self).pos,
            (r, final(self).pos as int) == sp_output_recover(
                old(self).chars@,
                old(self).pos as int,
            ),
            r ==> final(self).pos > old(self).pos,
    {
        let ghost cs = self.chars@;
        let ghost i0 = self.pos as int;
        let len = self.chars.len();
        while self.pos < len
            invariant
                self.wf(),
                self.chars == old(self).chars,
                self.text == old(self).text,
                self.pos >= old(self).pos,
                len == self.chars@.len(),
                cs == self.chars@,
                i0 == old(self).pos as int,
                sp_output_recover(cs, i0) == sp_output_recover(cs, self.pos as int),
            decreases len - self.pos,
        {
            let c = self.chars[self.pos];
            if c == ';' {
                self.pos = self.pos + 1;
                return true;
            }
            if Self::is_alpha(c) {
                let save = self.pos;
                let follows = match self.parse_ident() {
                    Some(_) => self.try_char('='),
                    None => false,
                };
                self.pos = save;
                proof {
                    assert(self.wf());
                }
                if follows {
                    return false;
                }
            }
            self.pos = self.pos + 1;
        }
        false
    }

    /// Parses one node-type declaration
    /// `NAME '=' (in ';')* ... '=>' (out ';')*` where each port is
    /// `IDENT '@' value_type`. The declared name selects the execution tag.
    /// A port whose type text is malformed keeps its place with the
    /// parse-failure sentinel in its slot, and parsing resumes at the next
    /// port delimiter.
    #[verifier::rlimit(100)]
    fn parse_declaration(&mut self) -> (r: Option<(String, NodeTypeInfo)>)
        requires
            old(self).wf(),
        ensures
            final(self).wf(),
            final(self).chars == old(self).chars,
            final(self).text == old(self).text,
            final(self).pos >= old(self).pos,
            match r {
                Some(d) => nt_wf(d.1@) && final(self).pos > old(self).pos && d.1@.tag
                    == spec_tag_of_name(d.0@) && sp_parse_declaration(
                    old(self).chars@,
                    old(self).pos as int,
                ) == Some((d.0@, d.1@, final(self).pos as int)),
                None => sp_parse_declaration(old(self).chars@, old(self).pos as int) is None,
            },
    {
        let ghost cs = self.chars@;
        let ghost i0 = self.pos as int;
        let name = match self.parse_ident() {
            Some(n) => n,
            None => {
                return None;
            },
        };
        if !self.try_char('=') {
            return None;
        }
        let mut inputs: Vec<InputInfo> = Vec::new();
        let mut outputs: Vec<OutputInfo> = Vec::new();
        proof {
            assert(sp_inslots(inputs@) =~= Seq::<crate::nodegraph::InputInfoV>::empty());
            assert(sp_outslots(outputs@) =~= Seq::<crate::nodegraph::OutputInfoV>::empty());
        }

        // Input ports, separated by ';', ended by '=>'.
        if !self.try_char('=') {
            proof {
                assert(sp_parse_declaration(cs, i0) == sp_decl_tail(
                    cs,
                    name@,
                    sp_parse_inputs(cs, self.pos as int, sp_inslots(inputs@)),
                ));
            }
            loop
                invariant_except_break
                    self.wf(),
                    self.chars == old(self).chars,
                    self.text == old(self).text,
                    self.pos > old(self).pos,
                    cs == self.chars@,
                    i0 == old(self).pos as int,
                    forall|j: int|
                        0 <= j < inputs@.len() ==> ((#[trigger] inputs@[j]@).ty matches Ok(t)
                            ==> tv_wf(t)),
                    sp_parse_declaration(cs, i0) == sp_decl_tail(
                        cs,
                        name@,
                        sp_parse_inputs(cs, self.pos as int, sp_inslots(inputs@)),
                    ),
                ensures
                    self.wf(),
                    self.chars == old(self).chars,
                    self.text == old(self).text,
                    self.pos > old(self).pos,
                    forall|j: int|
                        0 <= j < inputs@.len() ==> ((#[trigger] inputs@[j]@).ty matches Ok(t)
                            ==> tv_wf(t)),
                    sp_parse_declaration(cs, i0) == sp_decl_tail(
                        cs,
                        name@,
                        Some((sp_inslots(inputs@), self.pos as int)),
                    ),
                decreases self.remaining(),
            {
                let ghost p_head = self.pos as int;
                let ghost ins0 = sp_inslots(inputs@);
                let pname = match self.parse_ident() {
                    Some(n) => n,
                    None => {
                        proof {
                            assert(sp_parse_inputs(cs, p_head, ins0) is None);
                        }
                        return None;
                    },
                };
                if !self.try_char('@') {
                    proof {
                        assert(sp_parse_inputs(cs, p_head, ins0) is None);
                    }
                    return None;
                }
                let save_ty = self.pos;
                let ghost pa = self.pos as int;
                match self.parse_value_type() {
                    Some(t) => {
                        inputs.push(InputInfo { name: pname, value_type: Ok(t) });
                        proof {
                            assert(sp_inslots(inputs@) =~= ins0.push(inputs@.last()@));
                        }
                    },
                    None => {
                        self.pos = save_ty;
                        proof {
                            assert(self.wf());
                        }
                        match self.recover_input() {
                            None => {
                                proof {
                                    assert(sp_parse_inputs(cs, p_head, ins0) is None);
                                }
                                return None;
                            },
                            Some(more) => {
                                inputs.push(
                                    InputInfo {
                                        name: pname,
                                        value_type: Err(TypeError::ParseFailure),
                                    },
                                );
                                proof {
                                    assert(sp_inslots(inputs@) =~= ins0.push(
                                        inputs@.last()@,
                                    ));
                                }
                                if more {
                                    proof {
                                        assert(sp_parse_inputs(cs, p_head, ins0)
                                            == sp_parse_inputs(
                                            cs,
                                            self.pos as int,
                                            sp_inslots(inputs@),
                                        ));
                                    }
                                    continue;
                                }
                                proof {
                                    assert(sp_parse_inputs(cs, p_head, ins0) == Some((
                                        sp_inslots(inputs@),
                                        self.pos as int,
                                    )));
                                }
                                break;
                            },
                        }
                    },
                }
                let ghost slots_now = sp_inslots(inputs@);
                let ghost p_type_end = self.pos as int;
                if self.try_char(';') {
                    proof {
                        assert(sp_parse_inputs(cs, p_head, ins0) == sp_parse_inputs(
                            cs,
                            self.pos as int,
                            slots_now,
                        ));
                    }
                    continue;
                }
                if !self.try_char('=') {
                    proof {
                        assert(sp_parse_inputs(cs, p_head, ins0) is None);
                    }
                    return None;
                }
                proof {
                    assert(sp_parse_inputs(cs, p_head, ins0) == Some((
                        slots_now,
                        self.pos as int,
                    )));
                }
                break;
            }
        } else {
            proof {
                assert(sp_parse_declaration(cs, i0) == sp_decl_tail(
                    cs,
                    name@,
                    Some((sp_inslots(inputs@), self.pos as int)),
                ));
            }
        }
        if !self.try_char('>') {
            return None;
        }

        // Output ports, separated by ';'; the list ends where no further
        // `IDENT '@'` follows.
        let ghost ins_done = sp_inslots(inputs@);
        proof {
            assert(sp_parse_declaration(cs, i0) == sp_outs_tail(
                name@,
                ins_done,
                sp_parse_outputs(cs, self.pos as int, sp_outslots(outputs@)),
            ));
        }
        loop
            invariant_except_break
                self.wf(),
                self.chars == old(self).chars,
                self.text == old(self).text,
                self.pos > old(self).pos,
                cs == self.chars@,
                i0 == old(self).pos as int,
                ins_done == sp_inslots(inputs@),
                forall|j: int|
                    0 <= j < outputs@.len() ==> ((#[trigger] outputs@[j]@).ty matches Ok(t)
                        ==> tv_wf(t)),
                sp_parse_declaration(cs, i0) == sp_outs_tail(
                    name@,
                    ins_done,
                    sp_parse_outputs(cs, self.pos as int, sp_outslots(outputs@)),
                ),
            ensures
                self.wf(),
                self.chars == old(self).chars,
                self.text == old(self).text,
                self.pos > old(self).pos,
                ins_done == sp_inslots(inputs@),
                forall|j: int|
                    0 <= j < outputs@.len() ==> ((#[trigger] outputs@[j]@).ty matches Ok(t)
                        ==> tv_wf(t)),
                sp_parse_declaration(cs, i0) == Some(
                    (
                        name@,
                        NodeTypeV {
                            inputs: ins_done,
                            outputs: sp_outslots(outputs@),
                            tag: spec_tag_of_name(name@),
                        },
                        self.pos as int,
                    ),
                ),
            decreases self.remaining(),
        {
            let ghost p_head = self.pos as int;
            let ghost outs0 = sp_outslots(outputs@);
            let save = self.pos;
            let pname = match self.parse_ident() {
                Some(n) => n,
                None => {
                    self.pos = save;
                    proof {
                        assert(self.wf());
                        assert(sp_parse_outputs(cs, p_head, outs0) == Some((
                            outs0,
                            self.pos as int,
                        )));
                    }
                    break;
                },
            };
            if !self.try_char('@') {
                self.pos = save;
                proof {
                    assert(self.wf());
                    assert(sp_parse_outputs(cs, p_head, outs0) == Some((
                        outs0,
                        self.pos as int,
                    )));
                }
                break;
            }
            let save_ty = self.pos;
            match self.parse_value_type() {
                Some(t) => {
                    outputs.push(OutputInfo { name: Some(pname), value_type: Ok(t) });
                    proof {
                        assert(sp_outslots(outputs@) =~= outs0.push(outputs@.last()@));
                    }
                },
                None => {
                    self.pos = save_ty;
                    proof {
                        assert(self.wf());
                    }
                    let more = self.recover_output();
                    outputs.push(
                        OutputInfo { name: Some(pname), value_type: Err(TypeError::ParseFailure) },
                    );
                    proof {
                        assert(sp_outslots(outputs@) =~= outs0.push(outputs@.last()@));
                    }
                    if more {
                        proof {
                            assert(sp_parse_outputs(cs, p_head, outs0) == sp_parse_outputs(
                                cs,
                                self.pos as int,
                                sp_outslots(outputs@),
                            ));
                        }
                        continue;
                    }
                    proof {
                        assert(sp_parse_outputs(cs, p_head, outs0) == Some((
                            sp_outslots(outputs@),
                            self.pos as int,
                        )));
                    }
                    break;
                },
            }
            let ghost slots_now = sp_outslots(outputs@);
            if !self.try_char(';') {
                proof {
                    assert(sp_parse_outputs(cs, p_head, outs0) == Some((
                        slots_now,
                        self.pos as int,
                    )));
                }
                break;
            }
            proof {
                assert(sp_parse_outputs(cs, p_head, outs0) == sp_parse_outputs(
                    cs,
                    self.pos as int,
                    slots_now,
                ));
            }
        }

        let tag = tag_of_name(name.as_str());
        let info = NodeTypeInfo { inputs, outputs, annotation: tag };
        proof {
            assert(nt_wf(info@));
            assert(info@.inputs =~= ins_done);
            assert(info@.outputs =~= sp_outslots(outputs@));
            assert(info@ == NodeTypeV {
                inputs: ins_done,
                outputs: sp_outslots(outputs@),
                tag: spec_tag_of_name(name@),
            });
        }
        Some((name, info))
    }
}

/// Whether every registry entry carries the execution tag its declared
/// name selects.
pub open spec fn world_tags_by_name(w: crate::nodegraph::WorldV) -> bool {
    forall|k: int| 0 <= k < w.len() ==> (#[trigger] w[k].1).tag == spec_tag_of_name(w[k].0)
}

/// Parses a whole type-declaration file into a registry. Later declarations
/// of a name replace earlier ones, and each entry's execution tag is the
/// one its declared name selects. A malformed port type leaves its sentinel
/// in that port's slot; otherwise malformed text is a parse failure.
#[verifier::rlimit(100)]
pub fn parse_type_world(content: &str) -> (r: Result<SimpleTypeWorld, TypeError>)
    ensures
        match r {
            Ok(world) => world_wf(world@) && world_tags_by_name(world@) && spec_parse_type_world(
                content@,
            ) == Ok::<WorldV, TypeError>(world@),
            Err(e) => spec_parse_type_world(content@) == Err::<WorldV, TypeError>(e),
        },
{
    let ghost cs = content@;
    let mut sc = Scanner::new(content);
    let mut world = SimpleTypeWorld::new();
    proof {
        assert(world_wf(world@));
        assert(world@ =~= Seq::<(Seq<char>, NodeTypeV)>::empty());
        assert(spec_parse_type_world(cs) == sp_world_loop(cs, sc.pos as int, world@));
    }
    loop
        invariant
            sc.wf(),
            cs == content@,
            cs == sc.chars@,
            world_wf(world@),
            world_tags_by_name(world@),
            spec_parse_type_world(cs) == sp_world_loop(cs, sc.pos as int, world@),
        decreases sc.remaining(),
    {
        let ghost p_head = sc.pos as int;
        let ghost w_head = world@;
        if sc.at_end() {
            proof {
                lemma_world_step_end(cs, p_head, w_head);
                assert(spec_parse_type_world(cs) == sp_world_loop(cs, p_head, w_head));
                assert(spec_parse_type_world(cs) == Ok::<WorldV, TypeError>(world@));
            }
            return Ok(world);
        }
        proof {
            lemma_decl_after_skip(cs, p_head);
        }
        let ghost pre = world@;
        match sc.parse_declaration() {
            Some((name, info)) => {
                let ghost nmv = name@;
                let ghost ntv = info@;
                let r = world.add(name, info);
                proof {
                    assert forall|k: int| 0 <= k < world@.len() implies nt_wf(
                        #[trigger] world@[k].1,
                    ) && world@[k].1.tag == spec_tag_of_name(world@[k].0) by {
                        if k != r {
                            assert(world@[k] == pre[k]);
                        }
                    }
                    lemma_world_step(cs, p_head, pre, nmv, ntv, sc.pos as int);
                }
            },
            None => {
                proof {
                    lemma_world_step_err(cs, p_head, w_head);
                    assert(spec_parse_type_world(cs) == Err::<WorldV, TypeError>(
                        TypeError::ParseFailure,
                    ));
                }
                return Err(TypeError::ParseFailure);
            },
        }
    }
}

} // verus!
