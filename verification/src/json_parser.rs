//! Parsing of the textual values of the scene file: integers given as JSON
//! numbers or as strings, whitespace-separated lists of integers, and
//! transformation expressions such as `"t1 r2 s1"`.

use std::sync::Arc;
use vstd::prelude::*;

use crate::json_structs::{
    find_by_id, first_id_index, lemma_first_id_index, SingleOrVec, same_field, TransformField, TransformKind, Transformations,
};
use crate::text::{
    chars_of, str_eq, parse_i32_chars, parse_i32_spec, parse_usize_chars, parse_usize_spec, split_whitespace,
    tokens, decimal, is_ws, lemma_tokens_single, lemma_decimal_no_ws, join_decimals, lemma_tokens_join_decimals, signed_decimal, lemma_parse_decimal_usize, lemma_parse_decimal_i32,
};

verus! {

/// The kind of transformation a token's letter names.
pub open spec fn token_kind(c: char) -> Option<TransformKind> {
    if c == 't' || c == 'T' {
        Some(TransformKind::Translation)
    } else if c == 's' || c == 'S' {
        Some(TransformKind::Scaling)
    } else if c == 'r' || c == 'R' {
        Some(TransformKind::Rotation)
    } else if c == 'c' || c == 'C' {
        Some(TransformKind::Composite)
    } else {
        None
    }
}

/// What a token such as `t2` asks for: its letter's kind and its id. Tokens
/// shorter than two characters, with an unknown letter or with an id that is
/// no `usize` literal ask for nothing.
pub open spec fn token_request(t: Seq<char>) -> Option<(TransformKind, usize)> {
    if t.len() >= 2 {
        match (token_kind(t[0]), parse_usize_spec(t.drop_first())) {
            (Some(kind), Some(id)) => Some((kind, id)),
            _ => None,
        }
    } else {
        None
    }
}

/// The positions, among the declared fields of `kind`, that the tokens select
/// in order: for each token asking for that kind, the first field with its id,
/// when there is one.
pub open spec fn selected<D>(
    toks: Seq<Seq<char>>,
    kind: TransformKind,
    global: Transformations<D>,
) -> Seq<int>
    decreases toks.len(),
{
    if toks.len() == 0 {
        seq![]
    } else {
        let prev = selected(toks.drop_last(), kind, global);
        match token_request(toks.last()) {
            Some((k, id)) => if k == kind && first_id_index(global.of_kind(kind), id) >= 0 {
                prev.push(first_id_index(global.of_kind(kind), id))
            } else {
                prev
            },
            None => prev,
        }
    }
}

/// `out` holds copies of the fields at positions `picks` of `fields`, in order.
pub open spec fn is_selection<D: Clone>(
    out: Seq<TransformField<D>>,
    picks: Seq<int>,
    fields: Seq<TransformField<D>>,
) -> bool {
    &&& out.len() == picks.len()
    &&& forall|i: int|
        0 <= i < picks.len() ==> 0 <= #[trigger] picks[i] < fields.len() && same_field(
            fields[picks[i]],
            out[i],
        )
}

/// Every token starts with an ASCII character (a token may not start with a
/// multi-byte character: its first byte is split off as the kind letter).
pub open spec fn tokens_start_ascii(toks: Seq<Seq<char>>) -> bool {
    forall|i: int| 0 <= i < toks.len() && toks[i].len() > 0 ==> (#[trigger] toks[i][0] as u32) < 0x80
}

fn kind_of_letter(c: char) -> (r: Option<TransformKind>)
    ensures
        r == token_kind(c),
{
    if c == 't' || c == 'T' {
        Some(TransformKind::Translation)
    } else if c == 's' || c == 'S' {
        Some(TransformKind::Scaling)
    } else if c == 'r' || c == 'R' {
        Some(TransformKind::Rotation)
    } else if c == 'c' || c == 'C' {
        Some(TransformKind::Composite)
    } else {
        None
    }
}

/// Appends a copy of the first field of `fields` with the given id, if any.
fn push_selected<D: Clone>(
    out: &mut SingleOrVec<TransformField<D>>,
    fields: &SingleOrVec<TransformField<D>>,
    id: usize,
    Ghost(picks): Ghost<Seq<int>>,
)
    requires
        is_selection(old(out)@, picks, fields@),
        old(out).is_canonical(),
    ensures
        final(out).is_canonical(),
        is_selection(
            final(out)@,
            if first_id_index(fields@, id) >= 0 {
                picks.push(first_id_index(fields@, id))
            } else {
                picks
            },
            fields@,
        ),
{
    proof {
        lemma_first_id_index(fields@, id);
    }
    let ghost before = out@;
    if let Some(f) = find_by_id(fields, id) {
        let c = f.clone();
        out.push(c);
        assert forall|i: int| 0 <= i < picks.len() + 1 implies 0 <= #[trigger] picks.push(
            first_id_index(fields@, id),
        )[i] < fields@.len() && same_field(
            fields@[picks.push(first_id_index(fields@, id))[i]],
            out@[i],
        ) by {
            if i < picks.len() {
                assert(out@[i] == before[i]);
            }
        }
    }
}

/// Builds the transformations that the expression `expr` names, e.g. `"t1 s2 r1"`,
/// looking each one up by id among `global_transforms`.
///
/// Tokens that are too short, whose id is not a number, whose letter names no
/// kind, or whose id is not declared are skipped. Each list of the result is
/// `Empty` when nothing of its kind is selected, `Single` for one field and
/// `Multiple` for more.
pub fn parse_transform_expression<D: Clone>(
    expr: &str,
    global_transforms: &Transformations<D>,
) -> (r: Arc<Transformations<D>>)
    requires
        tokens_start_ascii(tokens(expr@)),
    ensures
        forall|kind: TransformKind|
            is_selection(
                #[trigger] (*r).of_kind(kind),
                selected(tokens(expr@), kind, *global_transforms),
                global_transforms.of_kind(kind),
            ),
        (*r).translation.is_canonical(),
        (*r).rotation.is_canonical(),
        (*r).scaling.is_canonical(),
        (*r).composite.is_canonical(),
{
    let chars = chars_of(expr);
    let toks = split_whitespace(chars.as_slice());
    let ghost all = tokens(expr@);
    assert(toks@.map_values(|t: Vec<char>| t@) == all);
    let mut out: Transformations<D> = Transformations::default();
    let mut k: usize = 0;
    assert(all.take(0) =~= Seq::<Seq<char>>::empty());
    while k < toks.len()
        invariant
            toks@.map_values(|t: Vec<char>| t@) == all,
            all == tokens(expr@),
            tokens_start_ascii(all),
            k <= toks@.len(),
            forall|kind: TransformKind|
                is_selection(
                    #[trigger] out.of_kind(kind),
                    selected(all.take(k as int), kind, *global_transforms),
                    global_transforms.of_kind(kind),
                ),
            out.translation.is_canonical(),
            out.rotation.is_canonical(),
            out.scaling.is_canonical(),
            out.composite.is_canonical(),
        decreases toks@.len() - k,
    {
        let t = &toks[k];
        let ghost prefix = all.take(k as int);
        let ghost next = all.take(k + 1);
        assert(next.drop_last() =~= prefix);
        assert(toks@[k as int]@ == all[k as int]);
        assert(next.last() == t@);
        let ghost old_out = out;
        let mut request: Option<(TransformKind, usize)> = None;
        if t.len() >= 2 {
            let id_chars = vstd::slice::slice_subrange(t.as_slice(), 1, t.len());
            assert(id_chars@ =~= t@.drop_first());
            if let Some(id) = parse_usize_chars(id_chars) {
                if let Some(kind) = kind_of_letter(t[0]) {
                    request = Some((kind, id));
                }
            }
        }
        assert(request == token_request(t@));
        if let Some((kind, id)) = request {
            assert(is_selection(
                out.of_kind(kind),
                selected(prefix, kind, *global_transforms),
                global_transforms.of_kind(kind),
            ));
            match kind {
                TransformKind::Translation => push_selected(
                    &mut out.translation,
                    &global_transforms.translation,
                    id,
                    Ghost(selected(prefix, kind, *global_transforms)),
                ),
                TransformKind::Scaling => push_selected(
                    &mut out.scaling,
                    &global_transforms.scaling,
                    id,
                    Ghost(selected(prefix, kind, *global_transforms)),
                ),
                TransformKind::Rotation => push_selected(
                    &mut out.rotation,
                    &global_transforms.rotation,
                    id,
                    Ghost(selected(prefix, kind, *global_transforms)),
                ),
                TransformKind::Composite => push_selected(
                    &mut out.composite,
                    &global_transforms.composite,
                    id,
                    Ghost(selected(prefix, kind, *global_transforms)),
                ),
            }
        }
        assert forall|kind: TransformKind|
            is_selection(
                #[trigger] out.of_kind(kind),
                selected(next, kind, *global_transforms),
                global_transforms.of_kind(kind),
            ) by {
            // the selection of this kind before the token, from the invariant
            assert(is_selection(
                old_out.of_kind(kind),
                selected(prefix, kind, *global_transforms),
                global_transforms.of_kind(kind),
            ));
        }
        k += 1;
    }
    assert(all.take(toks@.len() as int) =~= all);
    Arc::new(out)
}

/// The kind of transformation a letter names: `t`, `s`, `r` or `c`, in either case.
pub open spec fn letter_names(letter: char, kind: TransformKind) -> bool {
    ||| (letter == 't' || letter == 'T') && kind == TransformKind::Translation
    ||| (letter == 's' || letter == 'S') && kind == TransformKind::Scaling
    ||| (letter == 'r' || letter == 'R') && kind == TransformKind::Rotation
    ||| (letter == 'c' || letter == 'C') && kind == TransformKind::Composite
}

/// An expression of one token, a kind letter followed by the decimal digits of
/// an id (however many), selects exactly the first declared field of that kind
/// with that id, and nothing of any other kind: the id of a token is all of its
/// characters after the letter.
pub proof fn law_token_selects_field_by_whole_id<D: Clone>(
    letter: char,
    kind: TransformKind,
    n: usize,
    global: Transformations<D>,
    p: int,
    out: Seq<TransformField<D>>,
    other: TransformKind,
    rest: Seq<TransformField<D>>,
)
    requires
        letter_names(letter, kind),
        0 <= p < global.of_kind(kind).len(),
        global.of_kind(kind)[p]._id == n,
        forall|j: int| 0 <= j < p ==> (#[trigger] global.of_kind(kind)[j])._id != n,
        is_selection(out, selected(tokens(seq![letter] + decimal(n as nat)), kind, global), global.of_kind(kind)),
        other != kind,
        is_selection(rest, selected(tokens(seq![letter] + decimal(n as nat)), other, global), global.of_kind(other)),
    ensures
        out.len() == 1,
        same_field(global.of_kind(kind)[p], out[0]),
        rest.len() == 0,
{
    let t = seq![letter] + decimal(n as nat);
    lemma_decimal_no_ws(n as nat);
    assert(!is_ws(letter));
    assert forall|i: int| 0 <= i < t.len() implies !is_ws(#[trigger] t[i]) by {
        if i > 0 {
            assert(t[i] == decimal(n as nat)[i - 1]);
        }
    }
    lemma_tokens_single(t);
    let toks = tokens(t);
    assert(toks.drop_last() =~= Seq::<Seq<char>>::empty());
    assert(toks.last() == t);
    assert(t.drop_first() =~= decimal(n as nat));
    lemma_parse_decimal_usize(n as int);
    assert(parse_usize_spec(t.drop_first()) == Some(n));
    assert(token_kind(letter) == Some(kind));
    assert(token_request(t) == Some((kind, n)));
    lemma_first_id_index(global.of_kind(kind), n);
    assert(first_id_index(global.of_kind(kind), n) == p) by {
        let q = first_id_index(global.of_kind(kind), n);
        if q < 0 || q > p {
            assert(global.of_kind(kind)[p]._id != n);
        } else if q < p {
            assert(global.of_kind(kind)[q]._id == n);
        }
    }
    assert(toks.len() == 1);
    assert(selected(toks.drop_last(), kind, global) =~= Seq::<int>::empty());
    assert(selected(toks.drop_last(), other, global) =~= Seq::<int>::empty());
    assert(selected(toks, kind, global) =~= seq![p]);
    assert(selected(toks, other, global) =~= Seq::<int>::empty());
    assert(selected(toks, kind, global)[0] == p);
}

/// A JSON value in a field that holds an integer, as the parser reads it.
#[derive(Debug, Clone)]
pub enum JsonScalar {
    /// A JSON number, with its value when it is an integer that fits `i64`.
    Number(Option<i64>),
    /// A JSON string.
    Text(String),
    /// Any other JSON value, with a printable description of it.
    Other(String),
}

/// Why a textual or numeric field could not be read.
#[derive(Debug)]
pub enum ValueError {
    /// A JSON number that is not an integer within the range of the field.
    InvalidInteger,
    /// A string that does not hold an integer of the expected type.
    NotAnInteger,
    /// A JSON value that is neither a number nor a string.
    WrongType(String),
    /// A string with the wrong number of whitespace-separated components.
    WrongCount { expected: usize, found: usize },
    /// A component that its parser refused, with the parser's message.
    Component(String),
    /// The component at `position`, counted from 0, is no integer.
    BadComponent { position: usize },
    /// A count of values that is no multiple of the size of a group.
    NotDivisible { chunk_len: usize },
}

/// What reading a `usize` field gives: a JSON number its value when that
/// fits `usize`, a string the `usize` literal it holds.
pub open spec fn deser_usize_spec(v: JsonScalar) -> Result<usize, ValueError> {
    match v {
        JsonScalar::Number(Some(n)) => if 0 <= n <= usize::MAX {
            Ok(n as usize)
        } else {
            Err(ValueError::InvalidInteger)
        },
        JsonScalar::Number(None) => Err(ValueError::InvalidInteger),
        JsonScalar::Text(s) => match parse_usize_spec(s@) {
            Some(n) => Ok(n),
            None => Err(ValueError::NotAnInteger),
        },
        JsonScalar::Other(d) => Err(ValueError::WrongType(d)),
    }
}

/// Reads a `usize` field given either as a JSON number or as a string.
pub fn deser_usize(v: JsonScalar) -> (r: Result<usize, ValueError>)
    ensures
        r == deser_usize_spec(v),
{
    match v {
        JsonScalar::Number(Some(n)) => {
            if n < 0 || n as u64 > usize::MAX as u64 {
                Err(ValueError::InvalidInteger)
            } else {
                Ok(n as usize)
            }
        },
        JsonScalar::Number(None) => Err(ValueError::InvalidInteger),
        JsonScalar::Text(s) => {
            let cs = chars_of(s.as_str());
            match parse_usize_chars(cs.as_slice()) {
                Some(n) => Ok(n),
                None => Err(ValueError::NotAnInteger),
            }
        },
        JsonScalar::Other(d) => Err(ValueError::WrongType(d)),
    }
}

/// What reading an `i32` field gives: a JSON number its value when that fits
/// `i32`, a string the `i32` literal it holds.
pub open spec fn deser_int_spec(v: JsonScalar) -> Result<i32, ValueError> {
    match v {
        JsonScalar::Number(Some(n)) => if i32::MIN <= n <= i32::MAX {
            Ok(n as i32)
        } else {
            Err(ValueError::InvalidInteger)
        },
        JsonScalar::Number(None) => Err(ValueError::InvalidInteger),
        JsonScalar::Text(s) => match parse_i32_spec(s@) {
            Some(n) => Ok(n),
            None => Err(ValueError::NotAnInteger),
        },
        JsonScalar::Other(d) => Err(ValueError::WrongType(d)),
    }
}

/// Reads an `i32` field given either as a JSON number or as a string.
pub fn deser_int(v: JsonScalar) -> (r: Result<i32, ValueError>)
    ensures
        r == deser_int_spec(v),
{
    match v {
        JsonScalar::Number(Some(n)) => {
            if n < i32::MIN as i64 || n > i32::MAX as i64 {
                Err(ValueError::InvalidInteger)
            } else {
                Ok(n as i32)
            }
        },
        JsonScalar::Number(None) => Err(ValueError::InvalidInteger),
        JsonScalar::Text(s) => {
            let cs = chars_of(s.as_str());
            match parse_i32_chars(cs.as_slice()) {
                Some(n) => Ok(n),
                None => Err(ValueError::NotAnInteger),
            }
        },
        JsonScalar::Other(d) => Err(ValueError::WrongType(d)),
    }
}

/// The value a read gives, if it succeeds.
pub open spec fn read_value<T>(r: Result<T, ValueError>) -> Option<T> {
    match r {
        Ok(x) => Some(x),
        Err(_) => None,
    }
}

/// An integer field reads the same whether the scene file gives it as a JSON
/// number or as a string of its decimal digits (`6` and `"6"`): both give the
/// same value, or both are refused (`-1` and `"-1"`).
pub proof fn law_usize_number_or_string(n: i64, s: String)
    requires
        s@ == signed_decimal(n as int),
    ensures
        read_value(deser_usize_spec(JsonScalar::Text(s))) == read_value(
            deser_usize_spec(JsonScalar::Number(Some(n))),
        ),
{
    lemma_parse_decimal_usize(n as int);
}

/// An `i32` field reads the same whether the scene file gives it as a JSON
/// number or as a string of its signed decimal digits (`-3` and `"-3"`): both
/// give the same value, or both are refused (`4294967296` and `"4294967296"`).
pub proof fn law_int_number_or_string(n: i64, s: String)
    requires
        s@ == signed_decimal(n as int),
    ensures
        read_value(deser_int_spec(JsonScalar::Text(s))) == read_value(
            deser_int_spec(JsonScalar::Number(Some(n))),
        ),
{
    lemma_parse_decimal_i32(n as int);
}

/// A list of numbers written out in decimal, separated by single spaces, reads
/// back as the same numbers (so `deser_usize_vec` returns them).
pub proof fn law_usize_list_roundtrip(xs: Seq<usize>)
    ensures
        all_usize(tokens(join_decimals(xs))),
        tokens(join_decimals(xs)).len() == xs.len(),
        forall|i: int|
            0 <= i < xs.len() ==> parse_usize_spec(#[trigger] tokens(join_decimals(xs))[i]) == Some(xs[i]),
{
    lemma_tokens_join_decimals(xs);
    assert forall|i: int| 0 <= i < xs.len() implies parse_usize_spec(
        #[trigger] tokens(join_decimals(xs))[i],
    ) == Some(xs[i]) by {
        lemma_parse_decimal_usize(xs[i] as int);
    }
    assert forall|i: int| 0 <= i < tokens(join_decimals(xs)).len() implies (#[trigger] parse_usize_spec(
        tokens(join_decimals(xs))[i],
    )) is Some by {
        lemma_parse_decimal_usize(xs[i] as int);
    }
}

/// Every token is a `usize` literal.
pub open spec fn all_usize(toks: Seq<Seq<char>>) -> bool {
    forall|i: int| 0 <= i < toks.len() ==> (#[trigger] parse_usize_spec(toks[i])) is Some
}

/// Every token is an `i32` literal.
pub open spec fn all_i32(toks: Seq<Seq<char>>) -> bool {
    forall|i: int| 0 <= i < toks.len() ==> (#[trigger] parse_i32_spec(toks[i])) is Some
}

/// Reads a whitespace-separated list of `usize` literals, e.g. `"0 2 3"`; the
/// first token that is no literal is reported by its position.
pub fn deser_usize_vec(s: &str) -> (r: Result<Vec<usize>, ValueError>)
    ensures
        match r {
            Ok(v) => all_usize(tokens(s@)) && v@.len() == tokens(s@).len() && forall|i: int|
                0 <= i < v@.len() ==> Some(#[trigger] v@[i]) == parse_usize_spec(tokens(s@)[i]),
            Err(e) => !all_usize(tokens(s@)) && match e {
                ValueError::BadComponent { position } => position < tokens(s@).len()
                    && parse_usize_spec(tokens(s@)[position as int]) is None && forall|j: int|
                    0 <= j < position ==> (parse_usize_spec(#[trigger] tokens(s@)[j])) is Some,
                _ => false,
            },
        },
{
    let cs = chars_of(s);
    let toks = split_whitespace(cs.as_slice());
    let ghost all = tokens(s@);
    let mut out: Vec<usize> = Vec::new();
    let mut k: usize = 0;
    while k < toks.len()
        invariant
            toks@.map_values(|t: Vec<char>| t@) == all,
            all == tokens(s@),
            k <= toks@.len(),
            out@.len() == k,
            forall|i: int| 0 <= i < k ==> Some(#[trigger] out@[i]) == parse_usize_spec(all[i]),
        decreases toks@.len() - k,
    {
        assert(toks@[k as int]@ == all[k as int]);
        match parse_usize_chars(toks[k].as_slice()) {
            Some(n) => out.push(n),
            None => {
                assert(parse_usize_spec(all[k as int]) is None);
                assert forall|j: int| 0 <= j < k implies (parse_usize_spec(#[trigger] all[j])) is Some by {
                    assert(Some(out@[j]) == parse_usize_spec(all[j]));
                }
                return Err(ValueError::BadComponent { position: k });
            },
        }
        k += 1;
    }
    assert(all.len() == toks@.len());
    assert forall|i: int| 0 <= i < all.len() implies (#[trigger] parse_usize_spec(all[i])) is Some by {
        assert(Some(out@[i]) == parse_usize_spec(all[i]));
    }
    assert(all_usize(all));
    Ok(out)
}

/// Reads a whitespace-separated list of `i32` literals, e.g. `"-1 0 4"`; the
/// first token that is no literal is reported by its position.
pub fn deser_int_vec(s: &str) -> (r: Result<Vec<i32>, ValueError>)
    ensures
        match r {
            Ok(v) => all_i32(tokens(s@)) && v@.len() == tokens(s@).len() && forall|i: int|
                0 <= i < v@.len() ==> Some(#[trigger] v@[i]) == parse_i32_spec(tokens(s@)[i]),
            Err(e) => !all_i32(tokens(s@)) && match e {
                ValueError::BadComponent { position } => position < tokens(s@).len()
                    && parse_i32_spec(tokens(s@)[position as int]) is None && forall|j: int|
                    0 <= j < position ==> (parse_i32_spec(#[trigger] tokens(s@)[j])) is Some,
                _ => false,
            },
        },
{
    let cs = chars_of(s);
    let toks = split_whitespace(cs.as_slice());
    let ghost all = tokens(s@);
    let mut out: Vec<i32> = Vec::new();
    let mut k: usize = 0;
    while k < toks.len()
        invariant
            toks@.map_values(|t: Vec<char>| t@) == all,
            all == tokens(s@),
            k <= toks@.len(),
            out@.len() == k,
            forall|i: int| 0 <= i < k ==> Some(#[trigger] out@[i]) == parse_i32_spec(all[i]),
        decreases toks@.len() - k,
    {
        assert(toks@[k as int]@ == all[k as int]);
        match parse_i32_chars(toks[k].as_slice()) {
            Some(n) => out.push(n),
            None => {
                assert(parse_i32_spec(all[k as int]) is None);
                assert forall|j: int| 0 <= j < k implies (parse_i32_spec(#[trigger] all[j])) is Some by {
                    assert(Some(out@[j]) == parse_i32_spec(all[j]));
                }
                return Err(ValueError::BadComponent { position: k });
            },
        }
        k += 1;
    }
    assert(all.len() == toks@.len());
    assert forall|i: int| 0 <= i < all.len() implies (#[trigger] parse_i32_spec(all[i])) is Some by {
        assert(Some(out@[i]) == parse_i32_spec(all[i]));
    }
    assert(all_i32(all));
    Ok(out)
}

/// `<[usize; N] as TryFrom<Vec<usize>>>::try_from`: the vector's contents as an
/// array when its length is exactly `N`, the vector back otherwise.
#[verifier::external_body]
fn vec_try_into_array<const N: usize>(v: Vec<usize>) -> (r: Result<[usize; N], Vec<usize>>)
    ensures
        (v@.len() == N) == (r is Ok),
        match r {
            Ok(a) => a@ == v@,
            Err(w) => w@ == v@,
        },
{
    <[usize; N] as TryFrom<Vec<usize>>>::try_from(v)
}

/// Reads exactly `N` whitespace-separated `usize` literals, e.g. triangle indices.
pub fn deser_usize_array<const N: usize>(s: &str) -> (r: Result<[usize; N], ValueError>)
    ensures
        match r {
            Ok(a) => all_usize(tokens(s@)) && tokens(s@).len() == N && forall|i: int|
                0 <= i < N ==> Some(#[trigger] a@[i]) == parse_usize_spec(tokens(s@)[i]),
            Err(ValueError::BadComponent { position }) => !all_usize(tokens(s@)) && position
                < tokens(s@).len() && parse_usize_spec(tokens(s@)[position as int]) is None
                && forall|j: int| 0 <= j < position ==> (parse_usize_spec(#[trigger] tokens(s@)[j])) is Some,
            Err(ValueError::WrongCount { expected, found }) => all_usize(tokens(s@))
                && expected == N && found == tokens(s@).len() && found != N,
            Err(_) => false,
        },
{
    let v = deser_usize_vec(s)?;
    let len = v.len();
    if len != N {
        return Err(ValueError::WrongCount { expected: N, found: len });
    }
    match vec_try_into_array::<N>(v) {
        Ok(a) => Ok(a),
        Err(_) => Err(ValueError::WrongCount { expected: N, found: len }),
    }
}

/// Reads a pair of `usize` literals given as one string, e.g. an image
/// resolution `"800 600"`; a component that is no literal is reported by its
/// position, the first one first.
pub fn deser_pair(s: &str) -> (r: Result<[usize; 2], ValueError>)
    ensures
        match r {
            Ok(a) => tokens(s@).len() == 2 && Some(a[0]) == parse_usize_spec(tokens(s@)[0])
                && Some(a[1]) == parse_usize_spec(tokens(s@)[1]),
            Err(ValueError::WrongCount { expected, found }) => expected == 2 && found
                == tokens(s@).len() && found != 2,
            Err(ValueError::BadComponent { position }) => tokens(s@).len() == 2 && position < 2
                && parse_usize_spec(tokens(s@)[position as int]) is None && (position == 1
                ==> parse_usize_spec(tokens(s@)[0]) is Some),
            Err(_) => false,
        },
{
    let cs = chars_of(s);
    let toks = split_whitespace(cs.as_slice());
    let ghost all = tokens(s@);
    assert(toks@.map_values(|t: Vec<char>| t@) == all);
    if toks.len() != 2 {
        return Err(ValueError::WrongCount { expected: 2, found: toks.len() });
    }
    assert(toks@[0]@ == all[0]);
    assert(toks@[1]@ == all[1]);
    let x = match parse_usize_chars(toks[0].as_slice()) {
        Some(x) => x,
        None => {
            return Err(ValueError::BadComponent { position: 0 });
        },
    };
    let y = match parse_usize_chars(toks[1].as_slice()) {
        Some(y) => y,
        None => {
            return Err(ValueError::BadComponent { position: 1 });
        },
    };
    Ok([x, y])
}

/// What a component parser may give for a token whose characters are `t`.
pub open spec fn parses_to<F, P: Fn(&[char]) -> Result<F, String>>(
    parse: P,
    t: Seq<char>,
    out: Result<F, String>,
) -> bool {
    exists|a: &[char]| a@ == t && #[trigger] call_ensures(parse, (a,), out)
}

/// Whether `parse` may accept the token whose characters are `t`.
pub open spec fn parses_some<F, P: Fn(&[char]) -> Result<F, String>>(parse: P, t: Seq<char>) -> bool {
    exists|x: F| #[trigger] parses_to(parse, t, Ok(x))
}

/// Parses a three-component value such as `"25 25 25"`: the string must hold
/// exactly three whitespace-separated tokens, which `parse` turns into the
/// components, first to last; the first token it refuses gives its message.
pub fn parse_vec3_str<F, P: Fn(&[char]) -> Result<F, String>>(s: &str, parse: P) -> (r: Result<
    [F; 3],
    ValueError,
>)
    requires
        forall|a: &[char]| #[trigger] call_requires(parse, (a,)),
    ensures
        tokens(s@).len() != 3 ==> r == Err::<[F; 3], ValueError>(
            ValueError::WrongCount { expected: 3, found: tokens(s@).len() as usize },
        ),
        tokens(s@).len() == 3 ==> match r {
            Ok(v) => forall|i: int| 0 <= i < 3 ==> parses_to(parse, tokens(s@)[i], Ok(v[i])),
            Err(ValueError::Component(m)) => exists|i: int|
                0 <= i < 3 && parses_to(parse, tokens(s@)[i], Err(m)) && forall|j: int|
                    0 <= j < i ==> #[trigger] parses_some(parse, tokens(s@)[j]),
            Err(_) => false,
        },
{
    let cs = chars_of(s);
    let toks = split_whitespace(cs.as_slice());
    if toks.len() != 3 {
        return Err(ValueError::WrongCount { expected: 3, found: toks.len() });
    }
    let ghost t = tokens(s@);
    assert(toks@[0]@ == t[0] && toks@[1]@ == t[1] && toks@[2]@ == t[2]) by {
        assert(toks@.map_values(|v: Vec<char>| v@)[0] == t[0]);
        assert(toks@.map_values(|v: Vec<char>| v@)[1] == t[1]);
        assert(toks@.map_values(|v: Vec<char>| v@)[2] == t[2]);
    }
    let a0 = toks[0].as_slice();
    let x = match parse(a0) {
        Ok(x) => x,
        Err(m) => {
            assert(parses_to(parse, t[0], Err::<F, String>(m)));
            return Err(ValueError::Component(m));
        },
    };
    assert(parses_to(parse, t[0], Ok::<F, String>(x)));
    let a1 = toks[1].as_slice();
    let y = match parse(a1) {
        Ok(y) => y,
        Err(m) => {
            assert(parses_to(parse, t[1], Err::<F, String>(m)));
            assert(parses_some(parse, t[0]));
            return Err(ValueError::Component(m));
        },
    };
    assert(parses_to(parse, t[1], Ok::<F, String>(y)));
    let a2 = toks[2].as_slice();
    let z = match parse(a2) {
        Ok(z) => z,
        Err(m) => {
            assert(parses_to(parse, t[2], Err::<F, String>(m)));
            assert(parses_some(parse, t[0]) && parses_some(parse, t[1]));
            return Err(ValueError::Component(m));
        },
    };
    assert(parses_to(parse, t[2], Ok::<F, String>(z)));
    let v = [x, y, z];
    assert(forall|i: int| 0 <= i < 3 ==> parses_to(parse, t[i], Ok(v[i])));
    Ok(v)
}

/// The `i`-th run of `c` consecutive values of `s`.
pub open spec fn chunk<N>(s: Seq<N>, c: int, i: int) -> Seq<N> {
    s.subrange(i * c, i * c + c)
}

/// What `f` may give for the run of values `t`.
pub open spec fn maps_to<N, T, F: Fn(&[N]) -> Result<T, String>>(f: F, t: Seq<N>, out: Result<T, String>) -> bool {
    exists|a: &[N]| a@ == t && #[trigger] call_ensures(f, (a,), out)
}

/// Whether `f` may accept the run of values `t`.
pub open spec fn maps_some<N, T, F: Fn(&[N]) -> Result<T, String>>(f: F, t: Seq<N>) -> bool {
    exists|x: T| #[trigger] maps_to(f, t, Ok(x))
}

proof fn lemma_chunk_fits(i: int, k: int, c: int, n: int)
    requires
        0 <= i < k,
        c > 0,
        n == k * c,
    ensures
        0 <= i * c,
        i * c + c <= n,
{
    assert(0 <= i * c) by (nonlinear_arith)
        requires
            0 <= i,
            c > 0,
    ;
    assert(i * c + c <= k * c) by (nonlinear_arith)
        requires
            i < k,
            c > 0,
    ;
}

/// Turns `nums` into one value per run of `chunk_len` consecutive numbers,
/// first to last, e.g. coordinates into points. The count must be a multiple
/// of `chunk_len`; the first run that `f` refuses gives its message.
pub fn map_chunks<N, T, F: Fn(&[N]) -> Result<T, String>>(nums: &[N], chunk_len: usize, f: F) -> (r:
    Result<Vec<T>, ValueError>)
    requires
        chunk_len > 0,
        forall|a: &[N]| #[trigger] call_requires(f, (a,)),
    ensures
        nums@.len() as int % (chunk_len as int) != 0 ==> r == Err::<Vec<T>, ValueError>(
            ValueError::NotDivisible { chunk_len },
        ),
        nums@.len() as int % (chunk_len as int) == 0 ==> match r {
            Ok(v) => v@.len() == nums@.len() as int / (chunk_len as int) && forall|i: int|
                0 <= i < v@.len() ==> maps_to(f, chunk(nums@, chunk_len as int, i), Ok(#[trigger] v@[i])),
            Err(ValueError::Component(m)) => exists|i: int|
                0 <= i < nums@.len() as int / (chunk_len as int) && maps_to(
                    f,
                    chunk(nums@, chunk_len as int, i),
                    Err(m),
                ) && forall|j: int|
                    0 <= j < i ==> #[trigger] maps_some(f, chunk(nums@, chunk_len as int, j)),
            Err(_) => false,
        },
{
    let n = nums.len();
    if n % chunk_len != 0 {
        return Err(ValueError::NotDivisible { chunk_len });
    }
    let k = n / chunk_len;
    let ghost c = chunk_len as int;
    assert(n == k * chunk_len) by (nonlinear_arith)
        requires
            n % chunk_len == 0,
            k == n / chunk_len,
            chunk_len > 0,
    ;
    let mut out: Vec<T> = Vec::new();
    let mut i: usize = 0;
    while i < k
        invariant
            n == nums@.len(),
            c == chunk_len as int,
            chunk_len > 0,
            k == n / chunk_len,
            n == k * chunk_len,
            n % chunk_len == 0,
            i <= k,
            out@.len() == i,
            forall|a: &[N]| #[trigger] call_requires(f, (a,)),
            forall|j: int| 0 <= j < i ==> maps_to(f, chunk(nums@, c, j), Ok(#[trigger] out@[j])),
        decreases k - i,
    {
        proof {
            lemma_chunk_fits(i as int, k as int, c, n as int);
        }
        let start = i * chunk_len;
        let a = vstd::slice::slice_subrange(nums, start, start + chunk_len);
        assert(a@ == chunk(nums@, c, i as int));
        match f(a) {
            Ok(x) => {
                assert(maps_to(f, chunk(nums@, c, i as int), Ok::<T, String>(x)));
                out.push(x);
            },
            Err(m) => {
                assert(maps_to(f, chunk(nums@, c, i as int), Err::<T, String>(m)));
                assert forall|j: int| 0 <= j < i implies #[trigger] maps_some(f, chunk(nums@, c, j)) by {
                    assert(maps_to(f, chunk(nums@, c, j), Ok::<T, String>(out@[j])));
                }
                return Err(ValueError::Component(m));
            },
        }
        i += 1;
    }
    Ok(out)
}

/// The material types the scene file knows.
#[derive(Clone, Copy, Debug, PartialEq, Eq, Structural)]
pub enum MaterialKind {
    Diffuse,
    Mirror,
    Dielectric,
    Conductor,
}

/// The material a `_type` field selects: `diffuse`, `mirror`, `dielectric` or
/// `conductor`; a missing or unknown type gives a diffuse material.
pub open spec fn material_kind_spec(type_field: Option<Seq<char>>) -> MaterialKind {
    match type_field {
        Some(t) => if t == seq!['m', 'i', 'r', 'r', 'o', 'r'] {
            MaterialKind::Mirror
        } else if t == seq!['d', 'i', 'e', 'l', 'e', 'c', 't', 'r', 'i', 'c'] {
            MaterialKind::Dielectric
        } else if t == seq!['c', 'o', 'n', 'd', 'u', 'c', 't', 'o', 'r'] {
            MaterialKind::Conductor
        } else {
            MaterialKind::Diffuse
        },
        None => MaterialKind::Diffuse,
    }
}

/// Chooses the material type from the `_type` field of a material.
pub fn material_kind(type_field: Option<&str>) -> (k: MaterialKind)
    ensures
        k == material_kind_spec(
            match type_field {
                Some(t) => Some(t@),
                None => None,
            },
        ),
{
    proof {
        reveal_strlit("mirror");
        reveal_strlit("dielectric");
        reveal_strlit("conductor");
        assert("mirror"@ =~= seq!['m', 'i', 'r', 'r', 'o', 'r']);
        assert("dielectric"@ =~= seq!['d', 'i', 'e', 'l', 'e', 'c', 't', 'r', 'i', 'c']);
        assert("conductor"@ =~= seq!['c', 'o', 'n', 'd', 'u', 'c', 't', 'o', 'r']);
    }
    match type_field {
        Some(t) => {
            if str_eq(t, "mirror") {
                MaterialKind::Mirror
            } else if str_eq(t, "dielectric") {
                MaterialKind::Dielectric
            } else if str_eq(t, "conductor") {
                MaterialKind::Conductor
            } else {
                MaterialKind::Diffuse
            }
        },
        None => MaterialKind::Diffuse,
    }
}

} // verus!
