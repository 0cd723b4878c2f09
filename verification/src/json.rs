//! The structured-document layer: a JSON value tree, an exact printing
//! function, and a parser, with the printer and parser proved inverse on
//! well-formed trees.

use vstd::prelude::*;

use crate::char_ok;
use crate::str_ok;

verus! {

broadcast use vstd::std_specs::vec::group_vec_axioms;

/// An in-memory JSON document: the structured form that entities are
/// decoded from and encoded into.
pub enum Json {
    Null,
    Bool(bool),
    Int(i64),
    Str(Vec<char>),
    Arr(Vec<Json>),
    Obj(Vec<(Vec<char>, Json)>),
}

/// The mathematical model of a JSON tree.
pub enum JsonV {
    Null,
    Bool(bool),
    Int(int),
    Str(Seq<char>),
    Arr(Seq<JsonV>),
    Obj(Seq<(Seq<char>, JsonV)>),
}

/// The model of an in-memory tree: each vector becomes a sequence.
pub open spec fn jview(j: Json) -> JsonV
    decreases j,
{
    match j {
        Json::Null => JsonV::Null,
        Json::Bool(b) => JsonV::Bool(b),
        Json::Int(n) => JsonV::Int(n as int),
        Json::Str(s) => JsonV::Str(s@),
        Json::Arr(es) => JsonV::Arr(
            Seq::new(
                es.len() as nat,
                |i: int|
                    if 0 <= i < es.len() {
                        jview(es[i])
                    } else {
                        JsonV::Null
                    },
            ),
        ),
        Json::Obj(ms) => JsonV::Obj(
            Seq::new(
                ms.len() as nat,
                |i: int|
                    if 0 <= i < ms.len() {
                        (ms[i].0@, jview(ms[i].1))
                    } else {
                        (Seq::empty(), JsonV::Null)
                    },
            ),
        ),
    }
}

impl View for Json {
    type V = JsonV;

    open spec fn view(&self) -> JsonV {
        jview(*self)
    }
}

/// A tree is well formed when every string in it can be printed verbatim
/// and every integer fits the machine representation.
pub open spec fn jwf(j: JsonV) -> bool
    decreases j, 1int,
{
    match j {
        JsonV::Null => true,
        JsonV::Bool(_) => true,
        JsonV::Int(n) => i64::MIN <= n <= i64::MAX,
        JsonV::Str(s) => str_ok(s),
        JsonV::Arr(es) => elems_wf(es),
        JsonV::Obj(ms) => members_wf(ms),
    }
}

/// Every element of the sequence is a well-formed tree.
pub open spec fn elems_wf(es: Seq<JsonV>) -> bool
    decreases es, 0int,
{
    es.len() == 0 || (jwf(es[0]) && elems_wf(es.drop_first()))
}

/// Every member has a printable key and a well-formed value.
pub open spec fn members_wf(ms: Seq<(Seq<char>, JsonV)>) -> bool
    decreases ms, 0int,
{
    ms.len() == 0 || (str_ok(ms[0].0) && jwf(ms[0].1) && members_wf(ms.drop_first()))
}

/// A list of well-formed elements is a well-formed element list.
pub proof fn lemma_elems_wf_from(es: Seq<JsonV>)
    requires
        forall|i: int| 0 <= i < es.len() ==> jwf(#[trigger] es[i]),
    ensures
        elems_wf(es),
    decreases es.len(),
{
    if es.len() > 0 {
        assert forall|i: int| 0 <= i < es.drop_first().len() implies jwf(
            #[trigger] es.drop_first()[i],
        ) by {
            assert(es.drop_first()[i] == es[i + 1]);
        }
        lemma_elems_wf_from(es.drop_first());
    }
}

/// A list of printable keys and well-formed values is a well-formed
/// member list.
pub proof fn lemma_members_wf_from(ms: Seq<(Seq<char>, JsonV)>)
    requires
        forall|i: int| 0 <= i < ms.len() ==> str_ok((#[trigger] ms[i]).0) && jwf(ms[i].1),
    ensures
        members_wf(ms),
    decreases ms.len(),
{
    if ms.len() > 0 {
        assert forall|i: int|
            0 <= i < ms.drop_first().len() implies str_ok((#[trigger] ms.drop_first()[i]).0) && jwf(
            ms.drop_first()[i].1,
        ) by {
            assert(ms.drop_first()[i] == ms[i + 1]);
        }
        lemma_members_wf_from(ms.drop_first());
    }
}

// ---------------------------------------------------------------------------
// Printing: the exact text an encoded document consists of.
// ---------------------------------------------------------------------------
/// The character of one decimal digit.
pub open spec fn digit_char(d: int) -> char {
    if d == 0 {
        '0'
    } else if d == 1 {
        '1'
    } else if d == 2 {
        '2'
    } else if d == 3 {
        '3'
    } else if d == 4 {
        '4'
    } else if d == 5 {
        '5'
    } else if d == 6 {
        '6'
    } else if d == 7 {
        '7'
    } else if d == 8 {
        '8'
    } else {
        '9'
    }
}

/// The decimal digits of `n`, most significant first.
pub open spec fn dec_digits(n: nat) -> Seq<char>
    decreases n,
{
    if n < 10 {
        seq![digit_char(n as int)]
    } else {
        dec_digits(n / 10) + seq![digit_char((n % 10) as int)]
    }
}

/// The decimal rendering of a (possibly negative) integer.
pub open spec fn print_int(n: int) -> Seq<char> {
    if n < 0 {
        seq!['-'] + dec_digits((-n) as nat)
    } else {
        dec_digits(n as nat)
    }
}

/// The text of a printed JSON tree: no whitespace, strings verbatim.
pub open spec fn print_json(j: JsonV) -> Seq<char>
    decreases j, 1int,
{
    match j {
        JsonV::Null => seq!['n', 'u', 'l', 'l'],
        JsonV::Bool(b) => if b {
            seq!['t', 'r', 'u', 'e']
        } else {
            seq!['f', 'a', 'l', 's', 'e']
        },
        JsonV::Int(n) => print_int(n),
        JsonV::Str(s) => seq!['"'] + s + seq!['"'],
        JsonV::Arr(es) => seq!['['] + print_elems(es) + seq![']'],
        JsonV::Obj(ms) => seq!['{'] + print_members(ms) + seq!['}'],
    }
}

/// The comma-separated texts of an array's elements.
pub open spec fn print_elems(es: Seq<JsonV>) -> Seq<char>
    decreases es, 0int,
{
    if es.len() == 0 {
        Seq::empty()
    } else if es.len() == 1 {
        print_json(es[0])
    } else {
        print_json(es[0]) + seq![','] + print_elems(es.drop_first())
    }
}

/// The comma-separated `"key":value` texts of an object's members.
pub open spec fn print_members(ms: Seq<(Seq<char>, JsonV)>) -> Seq<char>
    decreases ms, 0int,
{
    if ms.len() == 0 {
        Seq::empty()
    } else {
        let head = seq!['"'] + ms[0].0 + seq!['"', ':'] + print_json(ms[0].1);
        if ms.len() == 1 {
            head
        } else {
            head + seq![','] + print_members(ms.drop_first())
        }
    }
}

// ---------------------------------------------------------------------------
// Parsing: which tree a document text denotes, if any.
// ---------------------------------------------------------------------------
/// JSON insignificant whitespace.
pub open spec fn is_ws(c: char) -> bool {
    c == ' ' || c == '\t' || c == '\n' || c == '\r'
}

/// The first position at or after `i` that holds no whitespace.
pub open spec fn skip_ws(s: Seq<char>, i: int) -> int
    decreases s.len() - i,
{
    if 0 <= i < s.len() && is_ws(s[i]) {
        skip_ws(s, i + 1)
    } else {
        i
    }
}

/// A decimal digit character.
pub open spec fn is_digit(c: char) -> bool {
    48 <= (c as u32) <= 57
}

/// The value of one digit character.
pub open spec fn digit_val(c: char) -> int {
    (c as u32) - 48
}

/// The end of the digit run starting at `i`.
pub open spec fn digits_end(s: Seq<char>, i: int) -> int
    decreases s.len() - i,
{
    if 0 <= i < s.len() && is_digit(s[i]) {
        digits_end(s, i + 1)
    } else {
        i
    }
}

/// The value of the digit run `s[i..j]`, read in base ten.
pub open spec fn digits_val(s: Seq<char>, i: int, j: int) -> int
    decreases j - i,
{
    if j <= i {
        0
    } else {
        digits_val(s, i, j - 1) * 10 + digit_val(s[j - 1])
    }
}

/// The end of the run of string-body characters starting at `i`.
pub open spec fn str_body_end(s: Seq<char>, i: int) -> int
    decreases s.len() - i,
{
    if 0 <= i < s.len() && char_ok(s[i]) {
        str_body_end(s, i + 1)
    } else {
        i
    }
}

/// Parses a number token at `i` (no leading whitespace): an optional minus,
/// then either a single `0` or a run of at most nineteen digits not led by
/// `0`, whose value must fit a 64-bit signed integer.
pub open spec fn parse_number(s: Seq<char>, i: int) -> Option<(JsonV, int)> {
    let d0 = if 0 <= i < s.len() && s[i] == '-' {
        i + 1
    } else {
        i
    };
    if 0 <= d0 < s.len() && is_digit(s[d0]) {
        let j = if s[d0] == '0' {
            d0 + 1
        } else {
            digits_end(s, d0)
        };
        if j - d0 <= 19 {
            let v = digits_val(s, d0, j);
            let sv = if d0 == i {
                v
            } else {
                -v
            };
            if i64::MIN <= sv <= i64::MAX {
                Some((JsonV::Int(sv), j))
            } else {
                None
            }
        } else {
            None
        }
    } else {
        None
    }
}

/// Parses one JSON value, skipping leading whitespace.
pub open spec fn parse_value(s: Seq<char>, i: int) -> Option<(JsonV, int)>
    decreases s.len() - i, 2int,
{
    let k = skip_ws(s, i);
    if !(0 <= k < s.len() && i <= k) {
        None
    } else {
        let c = s[k];
        if c == 'n' {
            if s.len() - k >= 4 && s[k + 1] == 'u' && s[k + 2] == 'l' && s[k + 3] == 'l' {
                Some((JsonV::Null, k + 4))
            } else {
                None
            }
        } else if c == 't' {
            if s.len() - k >= 4 && s[k + 1] == 'r' && s[k + 2] == 'u' && s[k + 3] == 'e' {
                Some((JsonV::Bool(true), k + 4))
            } else {
                None
            }
        } else if c == 'f' {
            if s.len() - k >= 5 && s[k + 1] == 'a' && s[k + 2] == 'l' && s[k + 3] == 's' && s[k
                + 4] == 'e' {
                Some((JsonV::Bool(false), k + 5))
            } else {
                None
            }
        } else if c == '"' {
            let e = str_body_end(s, k + 1);
            if e < s.len() && s[e] == '"' {
                Some((JsonV::Str(s.subrange(k + 1, e)), e + 1))
            } else {
                None
            }
        } else if c == '-' || is_digit(c) {
            parse_number(s, k)
        } else if c == '[' {
            let m = skip_ws(s, k + 1);
            if m < s.len() && s[m] == ']' {
                Some((JsonV::Arr(Seq::empty()), m + 1))
            } else {
                match parse_elems(s, k + 1) {
                    Some((es, j)) => Some((JsonV::Arr(es), j)),
                    None => None,
                }
            }
        } else if c == '{' {
            let m = skip_ws(s, k + 1);
            if m < s.len() && s[m] == '}' {
                Some((JsonV::Obj(Seq::empty()), m + 1))
            } else {
                match parse_members(s, k + 1) {
                    Some((ms, j)) => Some((JsonV::Obj(ms), j)),
                    None => None,
                }
            }
        } else {
            None
        }
    }
}

/// Parses a non-empty comma-separated element list and its closing `]`.
pub open spec fn parse_elems(s: Seq<char>, i: int) -> Option<(Seq<JsonV>, int)>
    decreases s.len() - i, 3int,
{
    match parse_value(s, i) {
        Some((v, j)) => if i < j {
            let m = skip_ws(s, j);
            if j <= m && m < s.len() && s[m] == ',' {
                match parse_elems(s, m + 1) {
                    Some((es, j2)) => Some((seq![v] + es, j2)),
                    None => None,
                }
            } else if m < s.len() && s[m] == ']' {
                Some((seq![v], m + 1))
            } else {
                None
            }
        } else {
            None
        },
        None => None,
    }
}

/// Parses a non-empty comma-separated member list and its closing `}`.
pub open spec fn parse_members(s: Seq<char>, i: int) -> Option<(Seq<(Seq<char>, JsonV)>, int)>
    decreases s.len() - i, 3int,
{
    let k = skip_ws(s, i);
    if i <= k && k < s.len() && s[k] == '"' {
        let e = str_body_end(s, k + 1);
        if k + 1 <= e && e < s.len() && s[e] == '"' {
            let key = s.subrange(k + 1, e);
            let b = skip_ws(s, e + 1);
            if e + 1 <= b && b < s.len() && s[b] == ':' {
                match parse_value(s, b + 1) {
                    Some((v, j)) => if i < j {
                        let m = skip_ws(s, j);
                        if j <= m && m < s.len() && s[m] == ',' {
                            match parse_members(s, m + 1) {
                                Some((ms, j2)) => Some((seq![(key, v)] + ms, j2)),
                                None => None,
                            }
                        } else if m < s.len() && s[m] == '}' {
                            Some((seq![(key, v)], m + 1))
                        } else {
                            None
                        }
                    } else {
                        None
                    },
                    None => None,
                }
            } else {
                None
            }
        } else {
            None
        }
    } else {
        None
    }
}

/// Parses a whole document: one value with nothing but whitespace around it.
pub open spec fn parse_doc(s: Seq<char>) -> Option<JsonV> {
    match parse_value(s, 0) {
        Some((v, j)) => if skip_ws(s, j) == s.len() {
            Some(v)
        } else {
            None
        },
        None => None,
    }
}

// ---------------------------------------------------------------------------
// Executable layer: each function computes exactly its specification.
// ---------------------------------------------------------------------------
/// The models of a vector of trees.
pub open spec fn jviews(es: Seq<Json>) -> Seq<JsonV> {
    Seq::new(
        es.len(),
        |i: int|
            if 0 <= i < es.len() {
                jview(es[i])
            } else {
                JsonV::Null
            },
    )
}

/// The models of a vector of members.
pub open spec fn mviews(ms: Seq<(Vec<char>, Json)>) -> Seq<(Seq<char>, JsonV)> {
    Seq::new(
        ms.len(),
        |i: int|
            if 0 <= i < ms.len() {
                (ms[i].0@, jview(ms[i].1))
            } else {
                (Seq::empty(), JsonV::Null)
            },
    )
}

/// An array's model is the model of its element vector.
pub proof fn lemma_arr_view(es: Vec<Json>)
    ensures
        jview(Json::Arr(es)) == JsonV::Arr(jviews(es@)),
{
    assert(jview(Json::Arr(es))->Arr_0 =~= jviews(es@));
}

/// An object's model is the model of its member vector.
pub proof fn lemma_obj_view(ms: Vec<(Vec<char>, Json)>)
    ensures
        jview(Json::Obj(ms)) == JsonV::Obj(mviews(ms@)),
{
    assert(jview(Json::Obj(ms))->Obj_0 =~= mviews(ms@));
}

/// The model of a parser result.
pub open spec fn opt_jview(r: Option<(Json, usize)>) -> Option<(JsonV, int)> {
    match r {
        Some((j, p)) => Some((jview(j), p as int)),
        None => None,
    }
}

fn is_ws_x(c: char) -> (r: bool)
    ensures
        r == is_ws(c),
{
    c == ' ' || c == '\t' || c == '\n' || c == '\r'
}

fn is_digit_x(c: char) -> (r: bool)
    ensures
        r == is_digit(c),
{
    let u = c as u32;
    48 <= u && u <= 57
}

fn char_ok_x(c: char) -> (r: bool)
    ensures
        r == char_ok(c),
{
    c != '"' && c != '\\' && (c as u32) >= 32
}

fn skip_ws_x(s: &Vec<char>, i: usize) -> (r: usize)
    requires
        i <= s.len(),
    ensures
        r == skip_ws(s@, i as int),
        i <= r <= s.len(),
{
    let mut k = i;
    while k < s.len() && is_ws_x(s[k])
        invariant
            i <= k <= s.len(),
            skip_ws(s@, i as int) == skip_ws(s@, k as int),
        decreases s.len() - k,
    {
        k = k + 1;
    }
    k
}

pub fn digits_end_x(s: &Vec<char>, i: usize) -> (r: usize)
    requires
        i <= s.len(),
    ensures
        r == digits_end(s@, i as int),
        i <= r <= s.len(),
{
    let mut k = i;
    while k < s.len() && is_digit_x(s[k])
        invariant
            i <= k <= s.len(),
            digits_end(s@, i as int) == digits_end(s@, k as int),
        decreases s.len() - k,
    {
        k = k + 1;
    }
    k
}

fn str_body_end_x(s: &Vec<char>, i: usize) -> (r: usize)
    requires
        i <= s.len(),
    ensures
        r == str_body_end(s@, i as int),
        i <= r <= s.len(),
{
    let mut k = i;
    while k < s.len() && char_ok_x(s[k])
        invariant
            i <= k <= s.len(),
            str_body_end(s@, i as int) == str_body_end(s@, k as int),
        decreases s.len() - k,
    {
        k = k + 1;
    }
    k
}

fn copy_range(s: &Vec<char>, a: usize, b: usize) -> (v: Vec<char>)
    requires
        a <= b <= s.len(),
    ensures
        v@ == s@.subrange(a as int, b as int),
{
    let mut v: Vec<char> = Vec::new();
    let mut k = a;
    while k < b
        invariant
            a <= k <= b <= s.len(),
            v@ == s@.subrange(a as int, k as int),
        decreases b - k,
    {
        v.push(s[k]);
        assert(v@ =~= s@.subrange(a as int, k + 1 as int));
        k = k + 1;
    }
    v
}

/// Ten to the `k`.
pub open spec fn pow10(k: nat) -> int
    decreases k,
{
    if k == 0 {
        1
    } else {
        10 * pow10((k - 1) as nat)
    }
}

/// A scan for the end of a digit run never moves backwards.
pub proof fn lemma_digits_end_ge(s: Seq<char>, i: int)
    requires
        0 <= i,
    ensures
        digits_end(s, i) >= i,
    decreases s.len() - i,
{
    if 0 <= i < s.len() && is_digit(s[i]) {
        lemma_digits_end_ge(s, i + 1);
    }
}

/// Every position of a digit run holds a digit.
pub proof fn lemma_digits_run(s: Seq<char>, i: int, p: int)
    requires
        0 <= i <= p < digits_end(s, i),
    ensures
        is_digit(s[p]),
    decreases p - i,
{
    if i < p {
        lemma_digits_run(s, i + 1, p);
    }
}

/// The value of a digit run is below ten to its length.
pub proof fn lemma_digits_val_bound(s: Seq<char>, i: int, j: int)
    requires
        0 <= i <= j <= digits_end(s, i),
    ensures
        0 <= digits_val(s, i, j) < pow10((j - i) as nat),
    decreases j - i,
{
    if i < j {
        lemma_digits_val_bound(s, i, j - 1);
        lemma_digits_run(s, i, j - 1);
    }
}

fn parse_number_x(s: &Vec<char>, i: usize) -> (r: Option<(Json, usize)>)
    requires
        i < s.len(),
    ensures
        opt_jview(r) == parse_number(s@, i as int),
        match r {
            Some((_, j)) => i < j <= s.len(),
            None => true,
        },
{
    let neg = s[i] == '-';
    let d0 = if neg {
        i + 1
    } else {
        i
    };
    if !(d0 < s.len() && is_digit_x(s[d0])) {
        return None;
    }
    let de = digits_end_x(s, d0);
    let j = if s[d0] == '0' {
        d0 + 1
    } else {
        de
    };
    proof {
        lemma_digits_end_ge(s@, d0 + 1);
        assert(digits_end(s@, d0 as int) == digits_end(s@, d0 + 1));
        assert(j <= digits_end(s@, d0 as int));
    }
    if j - d0 > 19 {
        return None;
    }
    let mut acc: u64 = 0;
    let mut p = d0;
    proof {
        lemma_digits_val_bound(s@, d0 as int, j as int);
    }
    while p < j
        invariant
            d0 <= p <= j <= s.len(),
            d0 as int <= j as int <= digits_end(s@, d0 as int),
            j - d0 <= 19,
            acc == digits_val(s@, d0 as int, p as int),
        decreases j - p,
    {
        proof {
            lemma_digits_run(s@, d0 as int, p as int);
            lemma_digits_val_bound(s@, d0 as int, p as int);
            assert(pow10((p - d0) as nat) <= pow10(18)) by {
                lemma_pow10_le((p - d0) as nat, 18);
            }
            assert(pow10(18) == 1000000000000000000) by {
                reveal_with_fuel(pow10, 19);
            }
        }
        let d = (s[p] as u32) as u64 - 48;
        acc = acc * 10 + d;
        p = p + 1;
    }
    if neg {
        if acc > 9223372036854775808u64 {
            return None;
        }
        let v: i64 = (-(acc as i128)) as i64;
        Some((Json::Int(v), j))
    } else {
        if acc > 9223372036854775807u64 {
            return None;
        }
        Some((Json::Int(acc as i64), j))
    }
}

/// Parses one JSON value, skipping leading whitespace.
pub fn parse_value_x(s: &Vec<char>, i: usize) -> (r: Option<(Json, usize)>)
    requires
        i <= s.len(),
    ensures
        opt_jview(r) == parse_value(s@, i as int),
        match r {
            Some((_, j)) => i < j <= s.len(),
            None => true,
        },
    decreases s.len() - i, 2int,
{
    let k = skip_ws_x(s, i);
    if k == s.len() {
        return None;
    }
    let c = s[k];
    if c == 'n' {
        if s.len() - k >= 4 && s[k + 1] == 'u' && s[k + 2] == 'l' && s[k + 3] == 'l' {
            Some((Json::Null, k + 4))
        } else {
            None
        }
    } else if c == 't' {
        if s.len() - k >= 4 && s[k + 1] == 'r' && s[k + 2] == 'u' && s[k + 3] == 'e' {
            Some((Json::Bool(true), k + 4))
        } else {
            None
        }
    } else if c == 'f' {
        if s.len() - k >= 5 && s[k + 1] == 'a' && s[k + 2] == 'l' && s[k + 3] == 's' && s[k + 4]
            == 'e' {
            Some((Json::Bool(false), k + 5))
        } else {
            None
        }
    } else if c == '"' {
        let e = str_body_end_x(s, k + 1);
        if e < s.len() && s[e] == '"' {
            let body = copy_range(s, k + 1, e);
            Some((Json::Str(body), e + 1))
        } else {
            None
        }
    } else if c == '-' || is_digit_x(c) {
        parse_number_x(s, k)
    } else if c == '[' {
        let m = skip_ws_x(s, k + 1);
        if m < s.len() && s[m] == ']' {
            let es: Vec<Json> = Vec::new();
            proof {
                lemma_arr_view(es);
                assert(jviews(es@) =~= Seq::<JsonV>::empty());
            }
            Some((Json::Arr(es), m + 1))
        } else {
            match parse_elems_x(s, k + 1) {
                Some((es, j)) => {
                    proof {
                        lemma_arr_view(es);
                    }
                    Some((Json::Arr(es), j))
                },
                None => None,
            }
        }
    } else if c == '{' {
        let m = skip_ws_x(s, k + 1);
        if m < s.len() && s[m] == '}' {
            let ms: Vec<(Vec<char>, Json)> = Vec::new();
            proof {
                lemma_obj_view(ms);
                assert(mviews(ms@) =~= Seq::<(Seq<char>, JsonV)>::empty());
            }
            Some((Json::Obj(ms), m + 1))
        } else {
            match parse_members_x(s, k + 1) {
                Some((ms, j)) => {
                    proof {
                        lemma_obj_view(ms);
                    }
                    Some((Json::Obj(ms), j))
                },
                None => None,
            }
        }
    } else {
        None
    }
}

/// The model of an element-list parser result.
pub open spec fn opt_eview(r: Option<(Vec<Json>, usize)>) -> Option<(Seq<JsonV>, int)> {
    match r {
        Some((es, p)) => Some((jviews(es@), p as int)),
        None => None,
    }
}

/// The model of a member-list parser result.
pub open spec fn opt_mview(r: Option<(Vec<(Vec<char>, Json)>, usize)>) -> Option<
    (Seq<(Seq<char>, JsonV)>, int),
> {
    match r {
        Some((ms, p)) => Some((mviews(ms@), p as int)),
        None => None,
    }
}

fn parse_elems_x(s: &Vec<char>, i: usize) -> (r: Option<(Vec<Json>, usize)>)
    requires
        i <= s.len(),
    ensures
        opt_eview(r) == parse_elems(s@, i as int),
        match r {
            Some((_, j)) => i < j <= s.len(),
            None => true,
        },
    decreases s.len() - i, 3int,
{
    match parse_value_x(s, i) {
        Some((v, j)) => {
            let m = skip_ws_x(s, j);
            if m < s.len() && s[m] == ',' {
                match parse_elems_x(s, m + 1) {
                    Some((rest, j2)) => {
                        let mut out = rest;
                        out.insert(0, v);
                        proof {
                            assert(jviews(out@) =~= seq![jview(v)] + jviews(rest@));
                        }
                        Some((out, j2))
                    },
                    None => None,
                }
            } else if m < s.len() && s[m] == ']' {
                let mut out: Vec<Json> = Vec::new();
                out.push(v);
                proof {
                    assert(jviews(out@) =~= seq![jview(v)]);
                }
                Some((out, m + 1))
            } else {
                None
            }
        },
        None => None,
    }
}

fn parse_members_x(s: &Vec<char>, i: usize) -> (r: Option<(Vec<(Vec<char>, Json)>, usize)>)
    requires
        i <= s.len(),
    ensures
        opt_mview(r) == parse_members(s@, i as int),
        match r {
            Some((_, j)) => i < j <= s.len(),
            None => true,
        },
    decreases s.len() - i, 3int,
{
    let k = skip_ws_x(s, i);
    if !(k < s.len() && s[k] == '"') {
        return None;
    }
    let e = str_body_end_x(s, k + 1);
    if !(e < s.len() && s[e] == '"') {
        return None;
    }
    let key = copy_range(s, k + 1, e);
    let b = skip_ws_x(s, e + 1);
    if !(b < s.len() && s[b] == ':') {
        return None;
    }
    match parse_value_x(s, b + 1) {
        Some((v, j)) => {
            let m = skip_ws_x(s, j);
            if m < s.len() && s[m] == ',' {
                match parse_members_x(s, m + 1) {
                    Some((rest, j2)) => {
                        let mut out = rest;
                        out.insert(0, (key, v));
                        proof {
                            assert(mviews(out@) =~= seq![(key@, jview(v))] + mviews(rest@));
                        }
                        Some((out, j2))
                    },
                    None => None,
                }
            } else if m < s.len() && s[m] == '}' {
                let mut out: Vec<(Vec<char>, Json)> = Vec::new();
                out.push((key, v));
                proof {
                    assert(mviews(out@) =~= seq![(key@, jview(v))]);
                }
                Some((out, m + 1))
            } else {
                None
            }
        },
        None => None,
    }
}

/// Parses a whole document text.
pub fn parse_doc_x(s: &Vec<char>) -> (r: Option<Json>)
    ensures
        match r {
            Some(j) => parse_doc(s@) == Some(jview(j)),
            None => parse_doc(s@) is None,
        },
{
    match parse_value_x(s, 0) {
        Some((v, j)) => {
            let m = skip_ws_x(s, j);
            if m == s.len() {
                Some(v)
            } else {
                None
            }
        },
        None => None,
    }
}

// ---------------------------------------------------------------------------
// Executable printing.
// ---------------------------------------------------------------------------
pub fn digit_char_x(d: u64) -> (c: char)
    requires
        d < 10,
    ensures
        c == digit_char(d as int),
{
    if d == 0 {
        '0'
    } else if d == 1 {
        '1'
    } else if d == 2 {
        '2'
    } else if d == 3 {
        '3'
    } else if d == 4 {
        '4'
    } else if d == 5 {
        '5'
    } else if d == 6 {
        '6'
    } else if d == 7 {
        '7'
    } else if d == 8 {
        '8'
    } else {
        '9'
    }
}

pub fn push_digits(n: u64, out: &mut Vec<char>)
    ensures
        final(out)@ == old(out)@ + dec_digits(n as nat),
    decreases n,
{
    if n < 10 {
        out.push(digit_char_x(n));
        assert(out@ =~= old(out)@ + dec_digits(n as nat));
    } else {
        push_digits(n / 10, out);
        out.push(digit_char_x(n % 10));
        assert(out@ =~= old(out)@ + dec_digits(n as nat));
    }
}

fn push_int(n: i64, out: &mut Vec<char>)
    ensures
        final(out)@ == old(out)@ + print_int(n as int),
{
    if n < 0 {
        out.push('-');
        let mag: u64 = (-(n as i128)) as u64;
        push_digits(mag, out);
        assert(out@ =~= old(out)@ + print_int(n as int));
    } else {
        push_digits(n as u64, out);
    }
}

/// Writes the text of a tree after what `out` already holds.
pub fn print_json_x(j: &Json, out: &mut Vec<char>)
    ensures
        final(out)@ == old(out)@ + print_json(jview(*j)),
    decreases *j, 1int, 0int,
{
    match j {
        Json::Null => {
            out.push('n');
            out.push('u');
            out.push('l');
            out.push('l');
            assert(out@ =~= old(out)@ + print_json(jview(*j)));
        },
        Json::Bool(b) => {
            if *b {
                out.push('t');
                out.push('r');
                out.push('u');
                out.push('e');
            } else {
                out.push('f');
                out.push('a');
                out.push('l');
                out.push('s');
                out.push('e');
            }
            assert(out@ =~= old(out)@ + print_json(jview(*j)));
        },
        Json::Int(n) => {
            push_int(*n, out);
        },
        Json::Str(s) => {
            out.push('"');
            let mut k: usize = 0;
            while k < s.len()
                invariant
                    k <= s.len(),
                    out@ == old(out)@ + seq!['"'] + s@.subrange(0, k as int),
                decreases s.len() - k,
            {
                out.push(s[k]);
                assert(out@ =~= old(out)@ + seq!['"'] + s@.subrange(0, k + 1 as int));
                k = k + 1;
            }
            out.push('"');
            assert(out@ =~= old(out)@ + print_json(jview(*j)));
        },
        Json::Arr(es) => {
            out.push('[');
            if es.len() > 0 {
                print_elems_x(es, 0, out);
            }
            out.push(']');
            proof {
                lemma_arr_view(Json::Arr(*es)->Arr_0);
                if es.len() > 0 {
                    assert(jviews(es@).skip(0) =~= jviews(es@));
                }
                assert(out@ =~= old(out)@ + print_json(jview(*j)));
            }
        },
        Json::Obj(ms) => {
            out.push('{');
            if ms.len() > 0 {
                print_members_x(ms, 0, out);
            }
            out.push('}');
            proof {
                lemma_obj_view(Json::Obj(*ms)->Obj_0);
                if ms.len() > 0 {
                    assert(mviews(ms@).skip(0) =~= mviews(ms@));
                }
                assert(out@ =~= old(out)@ + print_json(jview(*j)));
            }
        },
    }
}

fn print_elems_x(es: &Vec<Json>, ix: usize, out: &mut Vec<char>)
    requires
        ix < es.len(),
    ensures
        final(out)@ == old(out)@ + print_elems(jviews(es@).skip(ix as int)),
    decreases *es, 0int, es.len() - ix,
{
    print_json_x(&es[ix], out);
    proof {
        assert(jviews(es@).skip(ix as int)[0] == jview(es@[ix as int]));
    }
    if ix + 1 < es.len() {
        out.push(',');
        print_elems_x(es, ix + 1, out);
        proof {
            assert(jviews(es@).skip(ix as int).drop_first() =~= jviews(es@).skip(ix + 1));
            assert(out@ =~= old(out)@ + print_elems(jviews(es@).skip(ix as int)));
        }
    } else {
        assert(jviews(es@).skip(ix as int).len() == 1);
    }
}

fn print_members_x(ms: &Vec<(Vec<char>, Json)>, ix: usize, out: &mut Vec<char>)
    requires
        ix < ms.len(),
    ensures
        final(out)@ == old(out)@ + print_members(mviews(ms@).skip(ix as int)),
    decreases *ms, 0int, ms.len() - ix,
{
    out.push('"');
    let key = &ms[ix].0;
    let mut k: usize = 0;
    while k < key.len()
        invariant
            k <= key.len(),
            ix < ms.len(),
            key == &ms@[ix as int].0,
            out@ == old(out)@ + seq!['"'] + key@.subrange(0, k as int),
        decreases key.len() - k,
    {
        out.push(key[k]);
        assert(out@ =~= old(out)@ + seq!['"'] + key@.subrange(0, k + 1 as int));
        k = k + 1;
    }
    out.push('"');
    out.push(':');
    print_json_x(&ms[ix].1, out);
    proof {
        assert(key@.subrange(0, key@.len() as int) =~= key@);
        assert(mviews(ms@).skip(ix as int)[0] == (ms@[ix as int].0@, jview(ms@[ix as int].1)));
    }
    if ix + 1 < ms.len() {
        out.push(',');
        print_members_x(ms, ix + 1, out);
        proof {
            assert(mviews(ms@).skip(ix as int).drop_first() =~= mviews(ms@).skip(ix + 1));
            assert(out@ =~= old(out)@ + print_members(mviews(ms@).skip(ix as int)));
        }
    } else {
        assert(mviews(ms@).skip(ix as int).len() == 1);
        assert(out@ =~= old(out)@ + print_members(mviews(ms@).skip(ix as int)));
    }
}

/// Prints a whole tree as document text.
pub fn print_doc_x(j: &Json) -> (out: Vec<char>)
    ensures
        out@ == print_json(jview(*j)),
{
    let mut out: Vec<char> = Vec::new();
    print_json_x(j, &mut out);
    out
}

// ---------------------------------------------------------------------------
// The printer and the parser are inverse on well-formed trees.
// ---------------------------------------------------------------------------
/// The characters a printed value can start with.
pub open spec fn starts_value(c: char) -> bool {
    c == 'n' || c == 't' || c == 'f' || c == '"' || c == '-' || is_digit(c) || c == '[' || c == '{'
}

/// Nothing more follows a number token at `p`.
pub open spec fn num_stop(s: Seq<char>, p: int) -> bool {
    p == s.len() || !is_digit(s[p])
}

/// When `t` occurs in `s` at `a`, each character of `t` is at its offset.
pub proof fn lemma_embed_char(s: Seq<char>, a: int, t: Seq<char>, x: int)
    requires
        0 <= a,
        a + t.len() <= s.len(),
        s.subrange(a, a + t.len()) == t,
        0 <= x < t.len(),
    ensures
        s[a + x] == t[x],
{
    assert(t[x] == s.subrange(a, a + t.len())[x]);
}

/// When `t` occurs in `s` at `a`, each slice of `t` occurs at its offset.
pub proof fn lemma_embed(s: Seq<char>, a: int, t: Seq<char>, b: int, m: int)
    requires
        0 <= a,
        a + t.len() <= s.len(),
        s.subrange(a, a + t.len()) == t,
        0 <= b,
        0 <= m,
        b + m <= t.len(),
    ensures
        s.subrange(a + b, a + b + m) == t.subrange(b, b + m),
{
    assert forall|x: int| 0 <= x < m implies #[trigger] s.subrange(a + b, a + b + m)[x]
        == t.subrange(b, b + m)[x] by {
        assert(t[b + x] == s.subrange(a, a + t.len())[b + x]);
    }
    assert(s.subrange(a + b, a + b + m) =~= t.subrange(b, b + m));
}

/// Decimal digit texts: every character is a digit, and only zero starts
/// with the zero digit.
pub proof fn lemma_dec_digits_chars(n: nat)
    ensures
        dec_digits(n).len() >= 1,
        forall|p: int| 0 <= p < dec_digits(n).len() ==> is_digit(#[trigger] dec_digits(n)[p]),
        n > 0 ==> dec_digits(n)[0] != '0',
        n == 0 ==> dec_digits(n) =~= seq!['0'],
    decreases n,
{
    if n >= 10 {
        lemma_dec_digits_chars(n / 10);
        assert(dec_digits(n) == dec_digits(n / 10) + seq![digit_char((n % 10) as int)]);
        assert(dec_digits(n)[0] == dec_digits(n / 10)[0]);
    }
}

/// A number below ten to the `k` prints in at most `k` digits.
pub proof fn lemma_dec_digits_len(n: nat, k: nat)
    requires
        k >= 1,
        n < pow10(k),
    ensures
        dec_digits(n).len() <= k,
    decreases n,
{
    if n < 10 {
    } else {
        lemma_pow10_pos((k - 1) as nat);
        if k == 1 {
            assert(pow10(1nat) == 10) by {
                reveal_with_fuel(pow10, 2);
            }
            assert(false);
        }
        assert(pow10(k) == 10 * pow10((k - 1) as nat));
        assert(n / 10 < pow10((k - 1) as nat)) by {
            assert(n < 10 * pow10((k - 1) as nat));
        }
        lemma_dec_digits_len(n / 10, (k - 1) as nat);
    }
}

/// Reading back the digit text of `n` yields `n`.
pub proof fn lemma_digits_val_of_print(s: Seq<char>, i: int, n: nat)
    requires
        0 <= i,
        i + dec_digits(n).len() <= s.len(),
        s.subrange(i, i + dec_digits(n).len()) == dec_digits(n),
    ensures
        digits_val(s, i, i + dec_digits(n).len()) == n,
    decreases n,
{
    lemma_dec_digits_chars(n);
    let ll = dec_digits(n).len() as int;
    if n < 10 {
        lemma_embed_char(s, i, dec_digits(n), 0);
        assert(digits_val(s, i, i) == 0);
        assert(digits_val(s, i, i + 1) == digit_val(digit_char(n as int)));
    } else {
        let pre = dec_digits(n / 10);
        assert(dec_digits(n) == pre + seq![digit_char((n % 10) as int)]);
        lemma_embed(s, i, dec_digits(n), 0, pre.len() as int);
        assert(dec_digits(n).subrange(0, pre.len() as int) =~= pre);
        lemma_digits_val_of_print(s, i, n / 10);
        lemma_embed_char(s, i, dec_digits(n), ll - 1);
        assert(digit_val(digit_char((n % 10) as int)) == n % 10);
        assert(digits_val(s, i, i + ll) == digits_val(s, i, i + ll - 1) * 10 + digit_val(
            s[i + ll - 1],
        ));
    }
}

/// A run of digits followed by a non-digit ends exactly there.
pub proof fn lemma_digits_end_of_run(s: Seq<char>, i: int, e: int)
    requires
        0 <= i <= e <= s.len(),
        forall|p: int| i <= p < e ==> is_digit(#[trigger] s[p]),
        e == s.len() || !is_digit(s[e]),
    ensures
        digits_end(s, i) == e,
    decreases e - i,
{
    if i < e {
        lemma_digits_end_of_run(s, i + 1, e);
    }
}

/// A run of string-body characters followed by a quote ends exactly there.
pub proof fn lemma_str_body_end_of_run(s: Seq<char>, i: int, e: int)
    requires
        0 <= i <= e <= s.len(),
        forall|p: int| i <= p < e ==> char_ok(#[trigger] s[p]),
        e == s.len() || !char_ok(s[e]),
    ensures
        str_body_end(s, i) == e,
    decreases e - i,
{
    if i < e {
        lemma_str_body_end_of_run(s, i + 1, e);
    }
}

/// A scan for the end of a string body never moves backwards.
pub proof fn lemma_str_body_end_ge(s: Seq<char>, i: int)
    requires
        0 <= i,
    ensures
        str_body_end(s, i) >= i,
    decreases s.len() - i,
{
    if 0 <= i < s.len() && char_ok(s[i]) {
        lemma_str_body_end_ge(s, i + 1);
    }
}

/// Every string-body run consists of string-body characters.
pub proof fn lemma_str_body_run(s: Seq<char>, i: int, p: int)
    requires
        0 <= i <= p < str_body_end(s, i),
    ensures
        char_ok(s[p]),
    decreases p - i,
{
    if i < p {
        lemma_str_body_run(s, i + 1, p);
    }
}

/// A printed value is never empty and starts with a value character.
proof fn lemma_print_first(j: JsonV)
    requires
        jwf(j),
    ensures
        print_json(j).len() >= 1,
        starts_value(print_json(j)[0]),
{
    match j {
        JsonV::Int(n) => {
            if n >= 0 {
                lemma_dec_digits_chars(n as nat);
                assert(print_json(j)[0] == dec_digits(n as nat)[0]);
            }
        },
        _ => {},
    }
}

/// Reading back the decimal text of `n` yields `n`.
proof fn lemma_parse_print_int(s: Seq<char>, i: int, n: int)
    requires
        0 <= i,
        i64::MIN <= n <= i64::MAX,
        i + print_int(n).len() <= s.len(),
        s.subrange(i, i + print_int(n).len()) == print_int(n),
        num_stop(s, i + print_int(n).len()),
    ensures
        parse_number(s, i) == Some((JsonV::Int(n), i + print_int(n).len())),
{
    let pr = print_int(n);
    let ll = pr.len() as int;
    let mag = if n < 0 {
        (-n) as nat
    } else {
        n as nat
    };
    lemma_dec_digits_chars(mag);
    let d0 = if n < 0 {
        i + 1
    } else {
        i
    };
    let dl = dec_digits(mag).len() as int;
    if n < 0 {
        assert(pr == seq!['-'] + dec_digits(mag));
        lemma_embed_char(s, i, pr, 0);
        assert(s[i] == '-');
        lemma_embed(s, i, pr, 1, dl);
        assert(pr.subrange(1, 1 + dl) =~= dec_digits(mag));
    } else {
        lemma_embed_char(s, i, pr, 0);
        assert(s[i] == dec_digits(mag)[0]);
        assert(is_digit(s[i]));
        assert(s[i] != '-');
        assert(s.subrange(i, i + dl) == dec_digits(mag));
    }
    assert(s.subrange(d0, d0 + dl) == dec_digits(mag));
    assert forall|p: int| d0 <= p < d0 + dl implies is_digit(#[trigger] s[p]) by {
        lemma_embed_char(s, d0, dec_digits(mag), p - d0);
    }
    assert(is_digit(s[d0])) by {
        lemma_embed_char(s, d0, dec_digits(mag), 0);
    }
    lemma_digits_end_of_run(s, d0, d0 + dl);
    lemma_digits_val_of_print(s, d0, mag);
    lemma_embed_char(s, d0, dec_digits(mag), 0);
    assert(pow10(19nat) == 10000000000000000000) by {
        reveal_with_fuel(pow10, 20);
    }
    lemma_dec_digits_len(mag, 19);
    if mag == 0 {
        assert(s[d0] == '0');
        assert(digits_val(s, d0, d0) == 0);
        assert(digits_val(s, d0, d0 + 1) == digit_val(s[d0]));
    } else {
        assert(s[d0] == dec_digits(mag)[0]);
        assert(s[d0] != '0');
    }
}

/// Skipping whitespace before a non-whitespace character stays put.
pub proof fn lemma_skip_ws_noop(s: Seq<char>, i: int)
    requires
        0 <= i,
        i == s.len() || !is_ws(s[i]),
    ensures
        skip_ws(s, i) == i,
{
}

/// Parsing the printed text of a well-formed tree, embedded in a larger
/// text, returns exactly that tree.
proof fn lemma_print_parse(s: Seq<char>, i: int, j: JsonV)
    requires
        jwf(j),
        0 <= i,
        i + print_json(j).len() <= s.len(),
        s.subrange(i, i + print_json(j).len()) == print_json(j),
        num_stop(s, i + print_json(j).len()),
    ensures
        parse_value(s, i) == Some((j, i + print_json(j).len())),
    decreases j, 1int,
{
    let pr = print_json(j);
    let ll = pr.len() as int;
    lemma_print_first(j);
    lemma_embed_char(s, i, pr, 0);
    assert(s[i] == pr[0]);
    lemma_skip_ws_noop(s, i);
    match j {
        JsonV::Null => {
            lemma_embed_char(s, i, pr, 1);
            lemma_embed_char(s, i, pr, 2);
            lemma_embed_char(s, i, pr, 3);
        },
        JsonV::Bool(b) => {
            lemma_embed_char(s, i, pr, 1);
            lemma_embed_char(s, i, pr, 2);
            lemma_embed_char(s, i, pr, 3);
            if !b {
                lemma_embed_char(s, i, pr, 4);
            }
        },
        JsonV::Int(n) => {
            lemma_parse_print_int(s, i, n);
        },
        JsonV::Str(body) => {
            assert forall|p: int| i + 1 <= p < i + 1 + body.len() implies char_ok(
                #[trigger] s[p],
            ) by {
                lemma_embed_char(s, i, pr, p - i);
                assert(pr[p - i] == body[p - i - 1]);
            }
            lemma_embed_char(s, i, pr, 1 + body.len() as int);
            assert(s[i + 1 + body.len()] == '"');
            lemma_str_body_end_of_run(s, i + 1, i + 1 + body.len() as int);
            lemma_embed(s, i, pr, 1, body.len() as int);
            assert(pr.subrange(1, 1 + body.len() as int) =~= body);
        },
        JsonV::Arr(es) => {
            assert(s[i] == '[');
            lemma_embed_char(s, i, pr, ll - 1);
            assert(s[i + ll - 1] == ']');
            if es.len() == 0 {
                assert(print_elems(es) =~= Seq::<char>::empty());
                assert(ll == 2);
                lemma_skip_ws_noop(s, i + 1);
                assert(es =~= Seq::<JsonV>::empty());
            } else {
                let inner = print_elems(es);
                assert(jwf(es[0]));
                lemma_print_first(es[0]);
                assert(inner[0] == print_json(es[0])[0]);
                lemma_embed_char(s, i, pr, 1);
                assert(s[i + 1] == inner[0]);
                lemma_skip_ws_noop(s, i + 1);
                assert(!(s[i + 1] == ']'));
                lemma_embed(s, i, pr, 1, inner.len() as int);
                assert(pr.subrange(1, 1 + inner.len() as int) =~= inner);
                lemma_print_parse_elems(s, i + 1, es);
            }
        },
        JsonV::Obj(ms) => {
            assert(s[i] == '{');
            lemma_embed_char(s, i, pr, ll - 1);
            assert(s[i + ll - 1] == '}');
            if ms.len() == 0 {
                assert(print_members(ms) =~= Seq::<char>::empty());
                assert(ll == 2);
                lemma_skip_ws_noop(s, i + 1);
                assert(ms =~= Seq::<(Seq<char>, JsonV)>::empty());
            } else {
                let inner = print_members(ms);
                assert(inner[0] == '"');
                lemma_embed_char(s, i, pr, 1);
                assert(s[i + 1] == '"');
                lemma_skip_ws_noop(s, i + 1);
                lemma_embed(s, i, pr, 1, inner.len() as int);
                assert(pr.subrange(1, 1 + inner.len() as int) =~= inner);
                lemma_print_parse_members(s, i + 1, ms);
            }
        },
    }
}

/// Parsing a printed non-empty element list followed by `]` returns it.
proof fn lemma_print_parse_elems(s: Seq<char>, i: int, es: Seq<JsonV>)
    requires
        es.len() >= 1,
        elems_wf(es),
        0 <= i,
        i + print_elems(es).len() < s.len(),
        s.subrange(i, i + print_elems(es).len()) == print_elems(es),
        s[i + print_elems(es).len()] == ']',
    ensures
        parse_elems(s, i) == Some((es, i + print_elems(es).len() + 1)),
    decreases es, 0int,
{
    let pr = print_elems(es);
    let ll = pr.len() as int;
    let h = print_json(es[0]);
    assert(jwf(es[0]));
    lemma_print_first(es[0]);
    if es.len() == 1 {
        assert(pr == h);
        lemma_print_parse(s, i, es[0]);
        let jj = i + h.len() as int;
        lemma_skip_ws_noop(s, jj);
        assert(seq![es[0]] =~= es);
    } else {
        let rest = es.drop_first();
        let rp = print_elems(rest);
        assert(pr == h + seq![','] + rp);
        lemma_embed(s, i, pr, 0, h.len() as int);
        assert(pr.subrange(0, h.len() as int) =~= h);
        lemma_embed_char(s, i, pr, h.len() as int);
        assert(pr[h.len() as int] == ',');
        assert(s[i + h.len()] == ',');
        lemma_print_parse(s, i, es[0]);
        let jj = i + h.len() as int;
        lemma_skip_ws_noop(s, jj);
        assert(elems_wf(rest));
        lemma_embed(s, i, pr, h.len() as int + 1, rp.len() as int);
        assert(pr.subrange(h.len() as int + 1, h.len() as int + 1 + rp.len() as int) =~= rp);
        assert(jj + 1 + rp.len() == i + ll);
        lemma_print_parse_elems(s, jj + 1, rest);
        assert(seq![es[0]] + rest =~= es);
    }
}

/// Parsing a printed non-empty member list followed by `}` returns it.
proof fn lemma_print_parse_members(s: Seq<char>, i: int, ms: Seq<(Seq<char>, JsonV)>)
    requires
        ms.len() >= 1,
        members_wf(ms),
        0 <= i,
        i + print_members(ms).len() < s.len(),
        s.subrange(i, i + print_members(ms).len()) == print_members(ms),
        s[i + print_members(ms).len()] == '}',
    ensures
        parse_members(s, i) == Some((ms, i + print_members(ms).len() + 1)),
    decreases ms, 0int,
{
    let pr = print_members(ms);
    let ll = pr.len() as int;
    let key = ms[0].0;
    let kl = key.len() as int;
    let hv = print_json(ms[0].1);
    let h = seq!['"'] + key + seq!['"', ':'] + hv;
    assert(str_ok(key) && jwf(ms[0].1));
    lemma_print_first(ms[0].1);
    assert(h[0] == '"');
    lemma_embed_char(s, i, pr, 0);
    assert(s[i] == '"');
    lemma_skip_ws_noop(s, i);
    assert forall|p: int| i + 1 <= p < i + 1 + kl implies char_ok(#[trigger] s[p]) by {
        lemma_embed_char(s, i, pr, p - i);
        assert(pr[p - i] == key[p - i - 1]);
    }
    lemma_embed_char(s, i, pr, 1 + kl);
    assert(s[i + 1 + kl] == '"');
    lemma_str_body_end_of_run(s, i + 1, i + 1 + kl);
    let e = i + 1 + kl;
    lemma_embed(s, i, pr, 1, kl);
    assert(pr.subrange(1, 1 + kl) =~= key);
    assert(s.subrange(i + 1, e) == key);
    lemma_embed_char(s, i, pr, 2 + kl);
    assert(s[e + 1] == ':');
    lemma_skip_ws_noop(s, e + 1);
    let vstart = e + 2;
    lemma_embed(s, i, pr, 3 + kl, hv.len() as int);
    assert(pr.subrange(3 + kl, 3 + kl + hv.len() as int) =~= hv);
    assert(s.subrange(vstart, vstart + hv.len() as int) == hv);
    let jj = vstart + hv.len() as int;
    if ms.len() == 1 {
        assert(pr == h);
        assert(jj == i + ll);
        lemma_print_parse(s, vstart, ms[0].1);
        lemma_skip_ws_noop(s, jj);
        assert(seq![(key, ms[0].1)] =~= ms);
    } else {
        let rest = ms.drop_first();
        let rp = print_members(rest);
        assert(pr == h + seq![','] + rp);
        lemma_embed_char(s, i, pr, h.len() as int);
        assert(pr[h.len() as int] == ',');
        assert(s[jj] == ',');
        lemma_print_parse(s, vstart, ms[0].1);
        lemma_skip_ws_noop(s, jj);
        assert(members_wf(rest));
        lemma_embed(s, i, pr, h.len() as int + 1, rp.len() as int);
        assert(pr.subrange(h.len() as int + 1, h.len() as int + 1 + rp.len() as int) =~= rp);
        assert(jj + 1 + rp.len() == i + ll);
        lemma_print_parse_members(s, jj + 1, rest);
        assert(seq![(key, ms[0].1)] + rest =~= ms);
    }
}

/// Parsing the printed text of a well-formed tree yields that tree back:
/// the printer and the parser are inverse.
pub proof fn lemma_parse_of_print(j: JsonV)
    requires
        jwf(j),
    ensures
        parse_doc(print_json(j)) == Some(j),
{
    let s = print_json(j);
    assert(s.subrange(0, s.len() as int) =~= s);
    lemma_print_parse(s, 0, j);
    lemma_skip_ws_noop(s, s.len() as int);
}

// ---------------------------------------------------------------------------
// Everything the parser returns is well formed.
// ---------------------------------------------------------------------------
/// A parsed value is a well-formed tree.
pub proof fn lemma_parse_value_wf(s: Seq<char>, i: int)
    requires
        0 <= i,
    ensures
        match parse_value(s, i) {
            Some((v, _)) => jwf(v),
            None => true,
        },
    decreases s.len() - i, 2int,
{
    let k = skip_ws(s, i);
    if 0 <= k < s.len() && i <= k {
        let c = s[k];
        if c == '"' {
            let e = str_body_end(s, k + 1);
            lemma_str_body_end_ge(s, k + 1);
            if e < s.len() && s[e] == '"' {
                assert forall|p: int| 0 <= p < s.subrange(k + 1, e).len() implies char_ok(
                    #[trigger] s.subrange(k + 1, e)[p],
                ) by {
                    lemma_str_body_run(s, k + 1, k + 1 + p);
                }
                assert(str_ok(s.subrange(k + 1, e)));
            }
        } else if c == 'n' {
            assert(parse_value(s, i) matches Some((v, _)) ==> jwf(v));
        } else if c == 't' {
            assert(parse_value(s, i) matches Some((v, _)) ==> jwf(v));
        } else if c == 'f' {
            assert(parse_value(s, i) matches Some((v, _)) ==> jwf(v));
        } else if c == '-' || is_digit(c) {
            assert(parse_value(s, i) matches Some((v, _)) ==> jwf(v));
        } else if c == '[' {
            lemma_parse_elems_wf(s, k + 1);
            assert(elems_wf(Seq::<JsonV>::empty()));
            assert(parse_value(s, i) matches Some((v, _)) ==> jwf(v));
        } else if c == '{' {
            lemma_parse_members_wf(s, k + 1);
            assert(members_wf(Seq::<(Seq<char>, JsonV)>::empty()));
            assert(parse_value(s, i) matches Some((v, _)) ==> jwf(v));
        }
    }
}

/// Parsed element lists hold well-formed trees.
proof fn lemma_parse_elems_wf(s: Seq<char>, i: int)
    requires
        0 <= i,
    ensures
        match parse_elems(s, i) {
            Some((es, _)) => elems_wf(es),
            None => true,
        },
    decreases s.len() - i, 3int,
{
    lemma_parse_value_wf(s, i);
    match parse_value(s, i) {
        Some((v, j)) => {
            if i < j {
                let m = skip_ws(s, j);
                if j <= m && m < s.len() && s[m] == ',' {
                    lemma_parse_elems_wf(s, m + 1);
                    match parse_elems(s, m + 1) {
                        Some((rest, _)) => {
                            assert((seq![v] + rest)[0] == v);
                            assert((seq![v] + rest).drop_first() =~= rest);
                            assert(elems_wf(seq![v] + rest));
                        },
                        None => {},
                    }
                } else if m < s.len() && s[m] == ']' {
                    assert(seq![v][0] == v);
                    assert(seq![v].drop_first() =~= Seq::<JsonV>::empty());
                    assert(elems_wf(Seq::<JsonV>::empty()));
                    assert(elems_wf(seq![v]));
                }
            }
        },
        None => {},
    }
}

/// Parsed member lists hold printable keys and well-formed trees.
proof fn lemma_parse_members_wf(s: Seq<char>, i: int)
    requires
        0 <= i,
    ensures
        match parse_members(s, i) {
            Some((ms, _)) => members_wf(ms),
            None => true,
        },
    decreases s.len() - i, 3int,
{
    let k = skip_ws(s, i);
    if i <= k && k < s.len() && s[k] == '"' {
        let e = str_body_end(s, k + 1);
        lemma_str_body_end_ge(s, k + 1);
        if k + 1 <= e && e < s.len() && s[e] == '"' {
            assert forall|p: int| 0 <= p < s.subrange(k + 1, e).len() implies char_ok(
                #[trigger] s.subrange(k + 1, e)[p],
            ) by {
                lemma_str_body_run(s, k + 1, k + 1 + p);
            }
            let b = skip_ws(s, e + 1);
            if e + 1 <= b && b < s.len() && s[b] == ':' {
                lemma_parse_value_wf(s, b + 1);
                let key = s.subrange(k + 1, e);
                match parse_value(s, b + 1) {
                    Some((v, j)) => {
                        if i < j {
                            let m = skip_ws(s, j);
                            if j <= m && m < s.len() && s[m] == ',' {
                                lemma_parse_members_wf(s, m + 1);
                                match parse_members(s, m + 1) {
                                    Some((rest, _)) => {
                                        assert((seq![(key, v)] + rest)[0] == (key, v));
                                        assert((seq![(key, v)] + rest).drop_first() =~= rest);
                                    },
                                    None => {},
                                }
                            } else if m < s.len() && s[m] == '}' {
                                assert(seq![(key, v)][0] == (key, v));
                                assert(seq![(key, v)].drop_first() =~= Seq::<
                                    (Seq<char>, JsonV),
                                >::empty());
                                assert(members_wf(Seq::<(Seq<char>, JsonV)>::empty()));
                            }
                        }
                    },
                    None => {},
                }
            }
        }
    }
}

/// A parsed document is a well-formed tree.
pub proof fn lemma_parse_doc_wf(s: Seq<char>)
    ensures
        match parse_doc(s) {
            Some(v) => jwf(v),
            None => true,
        },
{
    lemma_parse_value_wf(s, 0);
}

/// `pow10` is monotone in its exponent.
pub proof fn lemma_pow10_le(a: nat, b: nat)
    requires
        a <= b,
    ensures
        pow10(a) <= pow10(b),
    decreases b,
{
    if a < b {
        lemma_pow10_le(a, (b - 1) as nat);
        lemma_pow10_pos((b - 1) as nat);
    }
}

/// `pow10` is positive.
pub proof fn lemma_pow10_pos(k: nat)
    ensures
        pow10(k) >= 1,
    decreases k,
{
    if k > 0 {
        lemma_pow10_pos((k - 1) as nat);
    }
}

} // verus!
