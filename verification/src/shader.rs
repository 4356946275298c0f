//! Parsing uniform declarations out of shader source text.
//!
//! The lexical rules are the module's own: tokens split at each Unicode
//! white-space character, identifiers and array sizes are maximal runs
//! of ASCII alphanumeric characters, and an array size must be a plain
//! decimal number that fits the machine word.

use vstd::prelude::*;

use crate::erase::{DynValue, TypeKey};
use crate::node::{Node, NodeInput, NodeOutput};
use crate::reflect::{InfoModel, InputGroup, InputInfo, PossibleInputs};
use crate::stack::InputStack;
use vstd::string::StringExecFns;

verus! {

/// The GLSL type a uniform declaration names.
#[derive(Debug, Clone, Copy, PartialEq, Eq, Structural)]
pub enum UniformType {
    SignedInt,
    Float,
    Mat2,
    Mat3,
    Mat4,
    Vec2,
    Vec3,
    Vec4,
}

/// One parsed uniform declaration.
#[derive(Debug, Clone, PartialEq)]
pub struct Uniform {
    pub name: String,
    pub ty: UniformType,
    pub array_size: Option<usize>,
}

/// A Unicode white-space character.
pub open spec fn is_space_char(c: char) -> bool {
    ||| c == ' '
    ||| c == '\t'
    ||| c == '\n'
    ||| c == '\r'
    ||| c as u32 == 0xb
    ||| c as u32 == 0xc
    ||| c as u32 == 0x85
    ||| c as u32 == 0xa0
    ||| c as u32 == 0x1680
    ||| (0x2000 <= c as u32 && c as u32 <= 0x200a)
    ||| c as u32 == 0x2028
    ||| c as u32 == 0x2029
    ||| c as u32 == 0x202f
    ||| c as u32 == 0x205f
    ||| c as u32 == 0x3000
}

fn is_space(c: char) -> (r: bool)
    ensures
        r == is_space_char(c),
{
    let u = c as u32;
    u == 0x20 || u == 0x9 || u == 0xa || u == 0xd || u == 0xb || u == 0xc || u == 0x85 || u == 0xa0
        || u == 0x1680 || (0x2000 <= u && u <= 0x200a) || u == 0x2028 || u == 0x2029 || u == 0x202f
        || u == 0x205f || u == 0x3000
}

/// An ASCII alphanumeric character: what an identifier or an array size
/// is made of.
pub open spec fn is_name_char(c: char) -> bool {
    ||| (0x30 <= c as u32 && c as u32 <= 0x39)
    ||| (0x41 <= c as u32 && c as u32 <= 0x5a)
    ||| (0x61 <= c as u32 && c as u32 <= 0x7a)
}

fn name_char(c: char) -> (r: bool)
    ensures
        r == is_name_char(c),
{
    let u = c as u32;
    (0x30 <= u && u <= 0x39) || (0x41 <= u && u <= 0x5a) || (0x61 <= u && u <= 0x7a)
}

/// The tokens of the text from scan position `i`, the current token
/// having begun at `start`: each token is the run since the last break,
/// paired with the position that ended it.
pub open spec fn split_tokens(cs: Seq<char>, start: int, i: int) -> Seq<(Seq<char>, int)>
    decreases cs.len() - i,
{
    if i < 0 || i >= cs.len() {
        seq![(cs.subrange(start, cs.len() as int), cs.len() as int)]
    } else if is_space_char(cs[i]) {
        seq![(cs.subrange(start, i), i)] + (if i + 1 < cs.len() {
            split_tokens(cs, i + 1, i + 1)
        } else {
            Seq::empty()
        })
    } else {
        split_tokens(cs, start, i + 1)
    }
}

/// All tokens of the text, split at each white-space character.
pub open spec fn split_all(cs: Seq<char>) -> Seq<(Seq<char>, int)> {
    if cs.len() == 0 {
        Seq::empty()
    } else {
        split_tokens(cs, 0, 0)
    }
}

proof fn lemma_split_positions(cs: Seq<char>, start: int, i: int)
    ensures
        forall|k: int|
            0 <= k < split_tokens(cs, start, i).len() ==> 0 <= (#[trigger] split_tokens(
                cs,
                start,
                i,
            )[k]).1 <= cs.len(),
    decreases cs.len() - i,
{
    if i < 0 || i >= cs.len() {
        assert(split_tokens(cs, start, i)[0].1 == cs.len());
    } else if is_space_char(cs[i]) {
        let whole = split_tokens(cs, start, i);
        if i + 1 < cs.len() {
            lemma_split_positions(cs, i + 1, i + 1);
            let rest = split_tokens(cs, i + 1, i + 1);
            assert(whole == seq![(cs.subrange(start, i), i)] + rest);
            assert forall|k: int|
                0 <= k < whole.len() implies 0 <= (#[trigger] whole[k]).1 <= cs.len() by {
                if k > 0 {
                    assert(whole[k] == rest[k - 1]);
                    assert(0 <= rest[k - 1].1 <= cs.len());
                } else {
                    assert(whole[0].1 == i);
                }
            }
        } else {
            assert(whole =~= seq![(cs.subrange(start, i), i)]);
            assert forall|k: int|
                0 <= k < whole.len() implies 0 <= (#[trigger] whole[k]).1 <= cs.len() by {
                assert(k == 0);
                assert(whole[0].1 == i);
            }
        }
    } else {
        lemma_split_positions(cs, start, i + 1);
        let whole = split_tokens(cs, start, i);
        let next = split_tokens(cs, start, i + 1);
        assert(whole == next);
        assert forall|k: int|
            0 <= k < whole.len() implies 0 <= (#[trigger] whole[k]).1 <= cs.len() by {
            assert(whole[k] == next[k]);
            assert(0 <= next[k].1 <= cs.len());
        }
    }
}

/// Split the text at each white-space character: every token is paired
/// with the position of the character that ended it, the final token
/// with the text's length.  Consecutive white-space characters produce
/// empty tokens; trailing white space produces none.
pub fn split_with_index(s: &str) -> (r: Vec<(String, usize)>)
    ensures
        r@.len() == split_all(s@).len(),
        forall|k: int|
            0 <= k < r@.len() ==> (#[trigger] r@[k]).0@ == split_all(s@)[k].0 && r@[k].1 == split_all(
                s@,
            )[k].1,
{
    let n = s.unicode_len();
    let mut out: Vec<(String, usize)> = Vec::new();
    if n == 0 {
        return out;
    }
    let mut start: usize = 0;
    let mut i: usize = 0;
    while i < n
        invariant
            n == s@.len(),
            0 < n,
            start <= i <= n,
            split_all(s@) =~= out_models(out@) + split_tokens(s@, start as int, i as int),
            out@.len() <= split_all(s@).len(),
            forall|k: int|
                0 <= k < out@.len() ==> (#[trigger] out@[k]).0@ == split_all(s@)[k].0
                    && out@[k].1 == split_all(s@)[k].1,
        decreases n - i,
    {
        let c = s.get_char(i);
        if is_space(c) {
            let tok = s.substring_char(start, i).to_owned();
            let ghost prev = out@;
            out.push((tok, i));
            proof {
                assert(out_models(out@) =~= out_models(prev) + seq![
                    (s@.subrange(start as int, i as int), i as int),
                ]);
            }
            if i + 1 < n {
                start = i + 1;
                i = i + 1;
            } else {
                return out;
            }
        } else {
            i = i + 1;
        }
    }
    let tok = s.substring_char(start, n).to_owned();
    let ghost prev = out@;
    out.push((tok, n));
    proof {
        assert(out_models(out@) =~= out_models(prev) + seq![
            (s@.subrange(start as int, n as int), n as int),
        ]);
    }
    out
}

/// The mathematical content of a token list.
pub open spec fn out_models(v: Seq<(String, usize)>) -> Seq<(Seq<char>, int)> {
    v.map_values(|t: (String, usize)| (t.0@, t.1 as int))
}

/// The identifier runs of the text from a break, in order.
pub open spec fn runs_gap(cs: Seq<char>, i: int) -> Seq<Seq<char>>
    decreases cs.len() - i,
{
    if i < 0 || i >= cs.len() {
        Seq::empty()
    } else if is_name_char(cs[i]) {
        runs_tok(cs, i, i + 1)
    } else {
        runs_gap(cs, i + 1)
    }
}

/// The identifier runs of the text, the current run having begun at
/// `start`.
pub open spec fn runs_tok(cs: Seq<char>, start: int, i: int) -> Seq<Seq<char>>
    decreases cs.len() - i,
{
    if i < 0 || i >= cs.len() {
        seq![cs.subrange(start, cs.len() as int)]
    } else if is_name_char(cs[i]) {
        runs_tok(cs, start, i + 1)
    } else {
        seq![cs.subrange(start, i)] + runs_gap(cs, i + 1)
    }
}

/// The first two identifier runs of the text, where present.
fn first_two_runs(s: &str) -> (r: (Option<String>, Option<String>))
    ensures
        r.0 is Some <==> runs_gap(s@, 0).len() >= 1,
        r.1 is Some <==> runs_gap(s@, 0).len() >= 2,
        r.0 matches Some(a) ==> a@ == runs_gap(s@, 0)[0],
        r.1 matches Some(b) ==> b@ == runs_gap(s@, 0)[1],
{
    let n = s.unicode_len();
    let mut found: Vec<String> = Vec::new();
    let mut i: usize = 0;
    let mut in_run: bool = false;
    let mut start: usize = 0;
    while i < n
        invariant
            n == s@.len(),
            i <= n,
            found@.len() < 2,
            in_run ==> start <= i,
            !in_run ==> run_models(found@) + runs_gap(s@, i as int) =~= runs_gap(s@, 0),
            in_run ==> run_models(found@) + runs_tok(s@, start as int, i as int) =~= runs_gap(
                s@,
                0,
            ),
        decreases n - i,
    {
        let c = s.get_char(i);
        let isn = name_char(c);
        if !in_run {
            if isn {
                in_run = true;
                start = i;
            }
        } else {
            if !isn {
                let tok = s.substring_char(start, i).to_owned();
                let ghost prev = found@;
                found.push(tok);
                proof {
                    assert(run_models(found@) =~= run_models(prev) + seq![
                        s@.subrange(start as int, i as int),
                    ]);
                }
                in_run = false;
                if found.len() >= 2 {
                    proof {
                        assert(runs_gap(s@, 0)[0] == run_models(found@)[0]);
                        assert(runs_gap(s@, 0)[1] == run_models(found@)[1]);
                    }
                    let b = found.pop().unwrap();
                    let a = found.pop().unwrap();
                    return (Some(a), Some(b));
                }
            }
        }
        i = i + 1;
    }
    if in_run {
        let tok = s.substring_char(start, n).to_owned();
        let ghost prev = found@;
        found.push(tok);
        proof {
            assert(run_models(found@) =~= run_models(prev) + seq![
                s@.subrange(start as int, n as int),
            ]);
        }
    }
    proof {
        assert(run_models(found@) =~= runs_gap(s@, 0));
    }
    if found.len() >= 2 {
        let b = found.pop().unwrap();
        let a = found.pop().unwrap();
        (Some(a), Some(b))
    } else if found.len() == 1 {
        let a = found.pop().unwrap();
        (Some(a), None)
    } else {
        (None, None)
    }
}

pub open spec fn run_models(v: Seq<String>) -> Seq<Seq<char>> {
    v.map_values(|t: String| t@)
}

/// The numeric value of a digit run.
pub open spec fn digits_value(cs: Seq<char>) -> int
    decreases cs.len(),
{
    if cs.len() == 0 {
        0
    } else {
        digits_value(cs.drop_last()) * 10 + (cs.last() as u32 - 0x30)
    }
}

/// Whether every character is a decimal digit.
pub open spec fn all_digits(cs: Seq<char>) -> bool {
    forall|i: int| 0 <= i < cs.len() ==> 0x30 <= (#[trigger] cs[i]) as u32 <= 0x39
}

/// What a token parses to as an array size: a nonempty all-digit run
/// whose value fits the machine word; anything else is rejected.
pub open spec fn parse_usize_spec(cs: Seq<char>) -> Option<int> {
    if cs.len() > 0 && all_digits(cs) && digits_value(cs) <= usize::MAX {
        Some(digits_value(cs))
    } else {
        None
    }
}

proof fn lemma_digits_nonneg(cs: Seq<char>)
    requires
        all_digits(cs),
    ensures
        digits_value(cs) >= 0,
    decreases cs.len(),
{
    if cs.len() > 0 {
        assert(all_digits(cs.drop_last())) by {
            assert(forall|i: int|
                0 <= i < cs.drop_last().len() ==> cs.drop_last()[i] == cs[i]);
        }
        lemma_digits_nonneg(cs.drop_last());
    }
}

proof fn lemma_digits_monotone(cs: Seq<char>, k: int)
    requires
        all_digits(cs),
        0 <= k <= cs.len(),
    ensures
        digits_value(cs) >= digits_value(cs.subrange(0, k)),
    decreases cs.len() - k,
{
    if k < cs.len() {
        lemma_digits_monotone(cs, k + 1);
        let shorter = cs.subrange(0, k);
        let longer = cs.subrange(0, k + 1);
        assert(longer.drop_last() =~= shorter);
        assert(longer.last() == cs[k]);
        assert(0x30 <= cs[k] as u32 <= 0x39);
        assert(all_digits(shorter)) by {
            assert(forall|i: int| 0 <= i < shorter.len() ==> shorter[i] == cs[i]);
        }
        lemma_digits_nonneg(shorter);
        let d = cs[k] as u32 - 0x30;
        assert(d >= 0);
        assert(digits_value(longer) == digits_value(shorter) * 10 + d);
        assert(digits_value(shorter) * 10 >= digits_value(shorter)) by (nonlinear_arith)
            requires
                digits_value(shorter) >= 0,
        ;
        assert(digits_value(longer) >= digits_value(shorter));
        assert(digits_value(cs) >= digits_value(longer));
    } else {
        assert(cs.subrange(0, k) =~= cs);
    }
}

/// Parse a token as an array size.
fn parse_usize(s: &str) -> (r: Option<usize>)
    ensures
        r is Some <==> parse_usize_spec(s@) is Some,
        r matches Some(v) ==> parse_usize_spec(s@) == Some(v as int),
{
    let n = s.unicode_len();
    if n == 0 {
        return None;
    }
    let mut acc: usize = 0;
    let mut i: usize = 0;
    while i < n
        invariant
            n == s@.len(),
            0 < n,
            i <= n,
            all_digits(s@.subrange(0, i as int)),
            acc as int == digits_value(s@.subrange(0, i as int)),
        decreases n - i,
    {
        let c = s.get_char(i);
        let u = c as u32;
        if !(0x30 <= u && u <= 0x39) {
            proof {
                assert(!(0x30 <= s@[i as int] as u32 <= 0x39));
                assert(!all_digits(s@));
            }
            return None;
        }
        let d = (u - 0x30) as usize;
        let step = match acc.checked_mul(10) {
            Some(m) => m.checked_add(d),
            None => None,
        };
        match step {
            Some(v) => {
                proof {
                    assert(s@.subrange(0, i + 1).drop_last() =~= s@.subrange(0, i as int));
                    assert(s@.subrange(0, i + 1).last() == s@[i as int]);
                }
                acc = v;
            },
            None => {
                proof {
                    if all_digits(s@) && digits_value(s@) <= usize::MAX {
                        assert(s@.subrange(0, i + 1).drop_last() =~= s@.subrange(0, i as int));
                        assert(s@.subrange(0, i + 1).last() == s@[i as int]);
                        lemma_digits_monotone(s@, i + 1);
                        assert(digits_value(s@.subrange(0, i + 1)) > usize::MAX);
                        assert(false);
                    }
                }
                return None;
            },
        }
        i = i + 1;
    }
    proof {
        assert(s@.subrange(0, n as int) =~= s@);
    }
    Some(acc)
}

/// Whether two texts hold the same characters.
fn text_eq(a: &str, b: &str) -> (r: bool)
    ensures
        r == (a@ == b@),
{
    let n = a.unicode_len();
    if n != b.unicode_len() {
        return false;
    }
    let mut i: usize = 0;
    while i < n
        invariant
            n == a@.len(),
            n == b@.len(),
            i <= n,
            forall|k: int| 0 <= k < i ==> a@[k] == b@[k],
        decreases n - i,
    {
        let ca = a.get_char(i);
        let cb = b.get_char(i);
        if ca != cb {
            return false;
        }
        i = i + 1;
    }
    proof {
        assert(a@ =~= b@);
    }
    true
}

/// Whether the text holds the pattern as a contiguous run.
pub open spec fn has_sub(cs: Seq<char>, pat: Seq<char>) -> bool {
    exists|k: int|
        0 <= k && k + pat.len() <= cs.len() && #[trigger] cs.subrange(k, k + pat.len()) == pat
}

/// Search for the pattern as a contiguous run.
fn contains_text(s: &str, pat: &str) -> (r: bool)
    ensures
        r == has_sub(s@, pat@),
{
    let n = s.unicode_len();
    let m = pat.unicode_len();
    if m > n {
        proof {
            assert(!has_sub(s@, pat@));
        }
        return false;
    }
    let mut k: usize = 0;
    while k <= n - m
        invariant
            n == s@.len(),
            m == pat@.len(),
            m <= n,
            k <= n - m + 1,
            forall|x: int| 0 <= x < k ==> #[trigger] s@.subrange(x, x + pat@.len()) != pat@,
        decreases n - k,
    {
        let mut j: usize = 0;
        let mut all: bool = true;
        while j < m
            invariant
                n == s@.len(),
                m == pat@.len(),
                k + m <= n,
                j <= m,
                all == forall|y: int| 0 <= y < j ==> s@[k + y] == pat@[y],
            decreases m - j,
        {
            let cs_c = s.get_char(k + j);
            let p_c = pat.get_char(j);
            if cs_c != p_c {
                all = false;
            }
            j = j + 1;
        }
        if all {
            proof {
                assert(s@.subrange(k as int, k + pat@.len()) =~= pat@);
            }
            return true;
        }
        proof {
            assert(s@.subrange(k as int, k + pat@.len()) != pat@) by {
                assert(exists|y: int| 0 <= y < m && s@[k + y] != pat@[y]);
                let y = choose|y: int| 0 <= y < m && s@[k + y] != pat@[y];
                assert(s@.subrange(k as int, k + pat@.len())[y] == s@[k + y]);
            }
        }
        k = k + 1;
    }
    proof {
        assert forall|x: int|
            0 <= x && x + pat@.len() <= s@.len() implies #[trigger] s@.subrange(x, x + pat@.len())
            != pat@ by {
            assert(x < k);
        }
    }
    false
}

/// A line without its trailing carriage return.
pub open spec fn strip_cr(l: Seq<char>) -> Seq<char> {
    if l.len() > 0 && l.last() == '\r' {
        l.drop_last()
    } else {
        l
    }
}

/// The lines of the text from scan position `i`, the current line having
/// begun at `start`: split at each line feed, no trailing empty line.
pub open spec fn lines_from(cs: Seq<char>, start: int, i: int) -> Seq<Seq<char>>
    decreases cs.len() - i,
{
    if i < 0 || i >= cs.len() {
        if start < cs.len() {
            seq![strip_cr(cs.subrange(start, cs.len() as int))]
        } else {
            Seq::empty()
        }
    } else if cs[i] == '\n' {
        seq![strip_cr(cs.subrange(start, i))] + lines_from(cs, i + 1, i + 1)
    } else {
        lines_from(cs, start, i + 1)
    }
}

pub open spec fn lines_of(cs: Seq<char>) -> Seq<Seq<char>> {
    lines_from(cs, 0, 0)
}

/// Split the text into lines.
fn split_lines(s: &str) -> (r: Vec<String>)
    ensures
        run_models(r@) == lines_of(s@),
{
    let n = s.unicode_len();
    let mut out: Vec<String> = Vec::new();
    let mut start: usize = 0;
    let mut i: usize = 0;
    while i < n
        invariant
            n == s@.len(),
            start <= i <= n,
            run_models(out@) + lines_from(s@, start as int, i as int) =~= lines_of(s@),
        decreases n - i,
    {
        let c = s.get_char(i);
        if c == '\n' {
            let raw = s.substring_char(start, i);
            let line = trim_cr(raw);
            let ghost prev = out@;
            out.push(line);
            proof {
                assert(run_models(out@) =~= run_models(prev) + seq![
                    strip_cr(s@.subrange(start as int, i as int)),
                ]);
            }
            start = i + 1;
        }
        i = i + 1;
    }
    if start < n {
        let raw = s.substring_char(start, n);
        let line = trim_cr(raw);
        let ghost prev = out@;
        out.push(line);
        proof {
            assert(run_models(out@) =~= run_models(prev) + seq![
                strip_cr(s@.subrange(start as int, n as int)),
            ]);
        }
    }
    proof {
        assert(run_models(out@) =~= lines_of(s@));
    }
    out
}

/// Drop one trailing carriage return.
fn trim_cr(l: &str) -> (r: String)
    ensures
        r@ == strip_cr(l@),
{
    let n = l.unicode_len();
    if n > 0 {
        let c = l.get_char(n - 1);
        if c == '\r' {
            let t = l.substring_char(0, n - 1).to_owned();
            proof {
                assert(l@.subrange(0, n - 1) =~= l@.drop_last());
            }
            return t;
        }
    }
    l.to_owned()
}

/// The GLSL type a token names.
pub open spec fn uniform_type_spec(cs: Seq<char>) -> Option<UniformType> {
    if cs == "int"@ {
        Some(UniformType::SignedInt)
    } else if cs == "float"@ {
        Some(UniformType::Float)
    } else if cs == "mat2"@ {
        Some(UniformType::Mat2)
    } else if cs == "mat3"@ {
        Some(UniformType::Mat3)
    } else if cs == "mat4"@ {
        Some(UniformType::Mat4)
    } else if cs == "vec2"@ {
        Some(UniformType::Vec2)
    } else if cs == "vec3"@ {
        Some(UniformType::Vec3)
    } else if cs == "vec4"@ {
        Some(UniformType::Vec4)
    } else {
        None
    }
}

fn uniform_type_of(tok: &String) -> (r: Option<UniformType>)
    ensures
        r == uniform_type_spec(tok@),
{
    if text_eq(tok.as_str(), "int") {
        Some(UniformType::SignedInt)
    } else if text_eq(tok.as_str(), "float") {
        Some(UniformType::Float)
    } else if text_eq(tok.as_str(), "mat2") {
        Some(UniformType::Mat2)
    } else if text_eq(tok.as_str(), "mat3") {
        Some(UniformType::Mat3)
    } else if text_eq(tok.as_str(), "mat4") {
        Some(UniformType::Mat4)
    } else if text_eq(tok.as_str(), "vec2") {
        Some(UniformType::Vec2)
    } else if text_eq(tok.as_str(), "vec3") {
        Some(UniformType::Vec3)
    } else if text_eq(tok.as_str(), "vec4") {
        Some(UniformType::Vec4)
    } else {
        None
    }
}

/// What one line declares: its uniform's name, type and array size, or
/// nothing.  A line declares a uniform when it holds the word and its
/// second token names a type; the name and the size are the first two
/// identifier runs after the type token; a line with no identifier run
/// at all keeps the raw tail as its name.
pub open spec fn uniform_of_line(l: Seq<char>) -> Option<(Seq<char>, UniformType, Option<int>)> {
    if !has_sub(l, "uniform"@) {
        None
    } else {
        let toks = split_all(l);
        if toks.len() < 2 {
            None
        } else {
            match uniform_type_spec(toks[1].0) {
                None => None,
                Some(ty) => {
                    let tail = l.subrange(toks[1].1, l.len() as int);
                    let rs = runs_gap(tail, 0);
                    if rs.len() == 0 {
                        Some((tail, ty, None))
                    } else if rs.len() == 1 {
                        Some((rs[0], ty, None))
                    } else {
                        Some((rs[0], ty, parse_usize_spec(rs[1])))
                    }
                },
            }
        }
    }
}

/// The uniforms the lines declare, in order.
pub open spec fn uniforms_of(lines: Seq<Seq<char>>) -> Seq<(Seq<char>, UniformType, Option<int>)>
    decreases lines.len(),
{
    if lines.len() == 0 {
        Seq::empty()
    } else {
        uniforms_of(lines.drop_last()) + (match uniform_of_line(lines.last()) {
            Some(u) => seq![u],
            None => Seq::empty(),
        })
    }
}

/// The mathematical content of a parsed uniform list.
pub open spec fn uniform_models(v: Seq<Uniform>) -> Seq<(Seq<char>, UniformType, Option<int>)> {
    v.map_values(
        |u: Uniform|
            (
                u.name@,
                u.ty,
                match u.array_size {
                    Some(z) => Some(z as int),
                    None => None,
                },
            ),
    )
}

/// Parse one line.
fn parse_line(line: &String) -> (r: Option<Uniform>)
    ensures
        r is Some <==> uniform_of_line(line@) is Some,
        r matches Some(u) ==> uniform_of_line(line@) == Some(
            (
                u.name@,
                u.ty,
                match u.array_size {
                    Some(z) => Some(z as int),
                    None => None,
                },
            ),
        ),
{
    if !contains_text(line.as_str(), "uniform") {
        return None;
    }
    let toks = split_with_index(line.as_str());
    if toks.len() < 2 {
        return None;
    }
    let ty = match uniform_type_of(&toks[1].0) {
        Some(ty) => ty,
        None => {
            return None;
        },
    };
    let cut = toks[1].1;
    proof {
        assert(toks@[1].1 == split_all(line@)[1].1);
        if line@.len() > 0 {
            lemma_split_positions(line@, 0, 0);
        }
    }
    let n = line.as_str().unicode_len();
    if cut > n {
        proof {
            assert(false);
        }
        return None;
    }
    let tail = line.as_str().substring_char(cut, n);
    let (first, second) = first_two_runs(tail);
    match first {
        None => Some(Uniform { name: tail.to_owned(), ty, array_size: None }),
        Some(name) => match second {
            None => Some(Uniform { name, ty, array_size: None }),
            Some(sz) => Some(Uniform { name, ty, array_size: parse_usize(sz.as_str()) }),
        },
    }
}

/// Parse every uniform declaration out of the source text, in line
/// order.
pub fn parse_uniforms(src: &str) -> (r: Vec<Uniform>)
    ensures
        uniform_models(r@) == uniforms_of(lines_of(src@)),
{
    let lines = split_lines(src);
    let ghost gl = lines_of(src@);
    let mut out: Vec<Uniform> = Vec::new();
    let mut i: usize = 0;
    while i < lines.len()
        invariant
            run_models(lines@) == gl,
            gl == lines_of(src@),
            lines@.len() == gl.len(),
            i <= gl.len(),
            uniform_models(out@) =~= uniforms_of(gl.subrange(0, i as int)),
        decreases gl.len() - i,
    {
        let line = &lines[i];
        proof {
            assert(line@ == gl[i as int]);
            assert(gl.subrange(0, i + 1).drop_last() =~= gl.subrange(0, i as int));
            assert(gl.subrange(0, i + 1).last() == gl[i as int]);
        }
        match parse_line(line) {
            Some(u) => {
                let ghost gu = (
                    u.name@,
                    u.ty,
                    match u.array_size {
                        Some(z) => Some(z as int),
                        None => None,
                    },
                );
                let ghost prev = out@;
                out.push(u);
                proof {
                    assert(uniform_models(out@) =~= uniform_models(prev) + seq![gu]);
                }
            },
            None => {},
        }
        i = i + 1;
    }
    proof {
        assert(gl.subrange(0, gl.len() as int) =~= gl);
        assert(uniform_models(out@) =~= uniforms_of(lines_of(src@)));
    }
    out
}

/// A shader value: the source text and the uniform values consumed with
/// it; of the uniform kinds only the signed scalar can carry a value
/// through the closed catalogue.
#[derive(Debug, Clone, PartialEq)]
pub struct ShaderData {
    pub source: String,
    pub uniforms: Vec<(String, i64)>,
}

/// The display label of a uniform type.
pub open spec fn type_label(t: UniformType) -> Seq<char> {
    match t {
        UniformType::SignedInt => "signed int"@,
        UniformType::Float => "float"@,
        UniformType::Mat2 => "2x2 matrix"@,
        UniformType::Mat3 => "3x3 matrix"@,
        UniformType::Mat4 => "4x4 matrix"@,
        UniformType::Vec2 => "vec2"@,
        UniformType::Vec3 => "vec3"@,
        UniformType::Vec4 => "vec4"@,
    }
}

fn type_label_of(t: UniformType) -> (r: &'static str)
    ensures
        r@ == type_label(t),
{
    match t {
        UniformType::SignedInt => "signed int",
        UniformType::Float => "float",
        UniformType::Mat2 => "2x2 matrix",
        UniformType::Mat3 => "3x3 matrix",
        UniformType::Mat4 => "4x4 matrix",
        UniformType::Vec2 => "vec2",
        UniformType::Vec3 => "vec3",
        UniformType::Vec4 => "vec4",
    }
}

/// The declared position of the shader source text.
pub open spec fn text_info_model() -> InfoModel {
    InfoModel {
        name: "shader text"@,
        ty_name: "String"@,
        type_id: TypeKey::OneText,
        optional: false,
    }
}

/// The declared positions of the parsed uniforms, one slot each, after
/// the source text.
pub open spec fn uniform_info_models(
    us: Seq<(Seq<char>, UniformType, Option<int>)>,
) -> Seq<InfoModel> {
    Seq::new(
        us.len(),
        |i: int|
            InfoModel {
                name: us[i].0,
                ty_name: type_label(us[i].1),
                type_id: TypeKey::UniformSlot,
                optional: false,
            },
    )
}

/// The one legal shape a shader node declares: before any source ran
/// through it, the source text alone; afterwards, the text followed by
/// one slot per uniform the cached source declares.
pub open spec fn shader_groups(src: Option<String>) -> Seq<Seq<InfoModel>> {
    match src {
        None => seq![seq![text_info_model()]],
        Some(s) => seq![
            seq![text_info_model()] + uniform_info_models(uniforms_of(lines_of(s@))),
        ],
    }
}

/// Whether a uniform slot can consume the value at its position: only a
/// signed scalar carries a uniform value through the closed catalogue.
pub open spec fn uniform_takes(t: UniformType, v: DynValue) -> bool {
    t == UniformType::SignedInt && v is OneS
}

/// The source text an erased text scalar holds.
pub open spec fn source_text_of(v: DynValue) -> Seq<char> {
    match v {
        DynValue::OneText(o) => o.0@,
        _ => Seq::empty(),
    }
}

/// The signed payload of an erased scalar.
pub open spec fn signed_payload(v: DynValue) -> i64 {
    match v {
        DynValue::OneS(o) => o.0,
        _ => 0,
    }
}

/// The number of uniform values one run supplies: the parsed
/// declarations zipped against the values after the source text,
/// truncated to the shorter.
pub open spec fn zip_len(parsed: Seq<(Seq<char>, UniformType, Option<int>)>, rest: Seq<DynValue>) -> int {
    if parsed.len() < rest.len() {
        parsed.len() as int
    } else {
        rest.len() as int
    }
}

/// A node that assembles a shader value: the first value is the source
/// text, the following values fill the uniform slots the source
/// declares; the node caches the last source that ran through it so its
/// declared shape can name those slots.
#[derive(Debug, Clone, PartialEq)]
pub struct ShaderNode {
    pub src: Option<String>,
}

impl ShaderNode {
    pub fn new() -> (r: Self)
        ensures
            r.src is None,
    {
        ShaderNode { src: None }
    }
}

impl NodeInput for ShaderNode {
    open spec fn inputs_spec(&self) -> Seq<Seq<InfoModel>> {
        shader_groups(self.src)
    }

    open spec fn variadic_spec(&self) -> bool {
        false
    }

    open spec fn is_terminator_spec(&self) -> bool {
        false
    }

    fn inputs(&self) -> (r: PossibleInputs) {
        let mut info: Vec<InputInfo> = Vec::new();
        info.push(
            InputInfo {
                name: String::from_str("shader text"),
                ty_name: String::from_str("String"),
                type_id: TypeKey::OneText,
                optional: false,
            },
        );
        proof {
            assert(info@[0].model() == text_info_model());
        }
        match &self.src {
            None => {
                let mut groups: Vec<InputGroup> = Vec::new();
                groups.push(InputGroup { info });
                let r = PossibleInputs::new(groups);
                proof {
                    assert(r.groups@[0].models() =~= seq![text_info_model()]);
                    assert(r.models() =~= shader_groups(self.src));
                }
                r
            },
            Some(s) => {
                let ghost us = uniforms_of(lines_of(s@));
                let parsed = parse_uniforms(s.as_str());
                let mut i: usize = 0;
                while i < parsed.len()
                    invariant
                        uniform_models(parsed@) == us,
                        parsed@.len() == us.len(),
                        i <= us.len(),
                        info@.len() == i + 1,
                        info@[0].model() == text_info_model(),
                        forall|k: int|
                            1 <= k < i + 1 ==> (#[trigger] info@[k]).model()
                                == uniform_info_models(us)[k - 1],
                    decreases us.len() - i,
                {
                    let u = &parsed[i];
                    proof {
                        assert(uniform_models(parsed@)[i as int] == us[i as int]);
                    }
                    let label = type_label_of(u.ty);
                    info.push(
                        InputInfo {
                            name: u.name.clone(),
                            ty_name: label.to_owned(),
                            type_id: TypeKey::UniformSlot,
                            optional: false,
                        },
                    );
                    i += 1;
                }
                let mut groups: Vec<InputGroup> = Vec::new();
                groups.push(InputGroup { info });
                let r = PossibleInputs::new(groups);
                proof {
                    assert forall|k: int|
                        0 <= k < us.len() + 1 implies r.groups@[0].models()[k] == (seq![
                        text_info_model(),
                    ] + uniform_info_models(us))[k] by {
                        if k >= 1 {
                            assert(info@[k].model() == uniform_info_models(us)[k - 1]);
                        }
                    }
                    assert(r.groups@[0].models() =~= seq![text_info_model()]
                        + uniform_info_models(us));
                    assert(r.models() =~= shader_groups(self.src));
                }
                r
            },
        }
    }

    fn variadic(&self) -> bool {
        false
    }

    fn is_terminator(&self) -> bool {
        false
    }
}

impl NodeOutput for ShaderNode {
    open spec fn op_rel(
        self,
        inputs: Seq<DynValue>,
        r: Result<DynValue, ()>,
        leftover: Seq<DynValue>,
        next: Self,
    ) -> bool {
        if inputs.len() >= 1 && inputs[0] is OneText {
            let srcv = source_text_of(inputs[0]);
            let parsed = uniforms_of(lines_of(srcv));
            let rest = inputs.drop_first();
            let m = zip_len(parsed, rest);
            &&& leftover == Seq::<DynValue>::empty()
            &&& if forall|i: int| 0 <= i < m ==> uniform_takes(parsed[i].1, #[trigger] rest[i]) {
                &&& (next.src matches Some(cs) && cs@ == srcv)
                &&& r matches Ok(dv) && dv matches DynValue::Shader(sd) && sd.source@ == srcv
                    && sd.uniforms@.len() == m && (forall|i: int|
                    0 <= i < m ==> (#[trigger] sd.uniforms@[i]).0@ == parsed[i].0
                        && sd.uniforms@[i].1 == signed_payload(rest[i]))
            } else {
                r is Err && next == self
            }
        } else {
            &&& r is Err
            &&& leftover == inputs
            &&& next == self
        }
    }

    #[verifier::loop_isolation(false)]
    fn op(&mut self, inputs: &mut Vec<DynValue>) -> (r: Result<DynValue, ()>) {
        let ghost gin = inputs@;
        if inputs.len() == 0 {
            return Err(());
        }
        let first_is_text = matches!(&inputs[0], DynValue::OneText(_));
        if !first_is_text {
            return Err(());
        }
        let whole = InputStack::whole(inputs);
        let mut vals = whole.consume(inputs);
        proof {
            assert(vals@ == gin);
            assert(inputs@ =~= Seq::<DynValue>::empty());
        }
        let source = match vals.remove(0) {
            DynValue::OneText(o) => o.inner(),
            _ => {
                proof {
                    assert(false);
                }
                return Err(());
            },
        };
        let ghost srcv = source@;
        let ghost rest = gin.drop_first();
        proof {
            assert(vals@ =~= rest);
        }
        let parsed = parse_uniforms(source.as_str());
        let ghost gparsed = uniforms_of(lines_of(srcv));
        let m = if parsed.len() < vals.len() {
            parsed.len()
        } else {
            vals.len()
        };
        let mut uniforms: Vec<(String, i64)> = Vec::new();
        let mut i: usize = 0;
        while i < m
            invariant
                gin.len() >= 1 && gin[0] is OneText,
                srcv == source_text_of(gin[0]),
                rest == gin.drop_first(),
                gparsed == uniforms_of(lines_of(srcv)),
                inputs@ == Seq::<DynValue>::empty(),
                *self == *old(self),
                uniform_models(parsed@) == gparsed,
                parsed@.len() == gparsed.len(),
                m == zip_len(gparsed, rest),
                vals@ =~= rest.skip(i as int),
                i <= m <= rest.len(),
                uniforms@.len() == i,
                forall|k: int|
                    0 <= k < i ==> uniform_takes(gparsed[k].1, #[trigger] rest[k]),
                forall|k: int|
                    0 <= k < i ==> (#[trigger] uniforms@[k]).0@ == gparsed[k].0
                        && uniforms@[k].1 == signed_payload(rest[k]),
            decreases m - i,
        {
            let u = &parsed[i];
            proof {
                assert(uniform_models(parsed@)[i as int] == gparsed[i as int]);
                assert(rest.skip(i as int)[0] == rest[i as int]);
                assert(rest.skip(i as int).drop_first() =~= rest.skip(i + 1));
            }
            let v = vals.remove(0);
            let accept = matches!(u.ty, UniformType::SignedInt) && matches!(
                &v,
                DynValue::OneS(_),
            );
            if !accept {
                let bad: Result<DynValue, ()> = Err(());
                proof {
                    assert(v == rest[i as int]);
                    assert(!uniform_takes(gparsed[i as int].1, rest[i as int]));
                    assert(source_text_of(gin[0]) == srcv);
                    lemma_shader_rel_err_zip(*old(self), gin, i as int);
                    assert(bad == Result::<DynValue, ()>::Err(()));
                    assert(inputs@ == Seq::<DynValue>::empty());
                    assert(old(self).op_rel(gin, bad, inputs@, *self));
                }
                return bad;
            }
            let payload = match v {
                DynValue::OneS(o) => o.inner(),
                _ => {
                    proof {
                        assert(false);
                    }
                    return Err(());
                },
            };
            uniforms.push((u.name.clone(), payload));
            i += 1;
        }
        let cached = source.clone();
        self.src = Some(cached);
        Ok(DynValue::Shader(ShaderData { source, uniforms }))
    }
}

/// Introduction: a uniform slot that cannot consume the value at its
/// position fails the shader assembly with the run already consumed.
proof fn lemma_shader_rel_err_zip(node: ShaderNode, inputs: Seq<DynValue>, i: int)
    requires
        inputs.len() >= 1,
        inputs[0] is OneText,
        0 <= i < zip_len(
            uniforms_of(lines_of(source_text_of(inputs[0]))),
            inputs.drop_first(),
        ),
        !uniform_takes(
            uniforms_of(lines_of(source_text_of(inputs[0])))[i].1,
            inputs.drop_first()[i],
        ),
    ensures
        node.op_rel(inputs, Result::<DynValue, ()>::Err(()), Seq::<DynValue>::empty(), node),
{
    assert(!(forall|x: int|
        0 <= x < zip_len(uniforms_of(lines_of(source_text_of(inputs[0]))), inputs.drop_first())
            ==> uniform_takes(
            uniforms_of(lines_of(source_text_of(inputs[0])))[x].1,
            #[trigger] inputs.drop_first()[x],
        )));
}

impl Node for ShaderNode {
    open spec fn name_spec(&self) -> Seq<char> {
        "shader"@
    }

    fn name(&self) -> (r: &'static str) {
        "shader"
    }
}

} // verus!
