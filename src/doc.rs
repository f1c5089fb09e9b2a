//! Documents as mathematical trees: the text the encoder writes for one, the
//! reading the decoder makes of text under a requested shape, and the laws
//! that tie the two together.
use vstd::prelude::*;

use crate::de::{find_quote, is_ws, next_is, scalar_at, scalar_end, scalar_text, skip_ws};
use crate::ser::{bool_text, closing, element_header, entry_start, quoted, separator};
use crate::text::{int_text, lemma_int_text_round_trip, nat_text, signed_value, unsigned_value};

verus! {

/// A value made of scalars, sequences and mappings.
pub enum Doc {
    Str(Seq<char>),
    Bool(bool),
    Int(int),
    List(Seq<Doc>),
    Record(Seq<Seq<char>>, Seq<Doc>),
}

/// The shape the binding layer requests at each point of a decode: a scalar
/// read as a string, a boolean or an integer in a range, or a container with
/// the shapes of its values, position by position.
pub enum Shape {
    Str,
    Bool,
    Int { min: int, max: int },
    UInt { max: int },
    List(Seq<Shape>),
    Record(Seq<Shape>),
}

pub open spec fn no_quote(t: Seq<char>) -> bool {
    forall|i: int| 0 <= i < t.len() ==> t[i] != '"'
}

/// Whether `d` is a value of shape `sh` that the format can represent: no
/// string holds `"`.
pub open spec fn fits(d: Doc, sh: Shape) -> bool
    decreases d,
{
    match d {
        Doc::Str(t) => sh is Str && no_quote(t),
        Doc::Bool(_) => sh is Bool,
        Doc::Int(n) => match sh {
            Shape::Int { min, max } => min <= n <= max,
            Shape::UInt { max } => 0 <= n <= max,
            _ => false,
        },
        Doc::List(items) => match sh {
            Shape::List(shapes) => items.len() == shapes.len() && forall|k: int|
                0 <= k < items.len() ==> fits(#[trigger] items[k], shapes[k]),
            _ => false,
        },
        Doc::Record(keys, values) => match sh {
            Shape::Record(shapes) => keys.len() == values.len() && values.len() == shapes.len()
                && (forall|k: int| 0 <= k < keys.len() ==> no_quote(#[trigger] keys[k])) && (forall|
                k: int,
            |
                0 <= k < values.len() ==> fits(#[trigger] values[k], shapes[k])),
            _ => false,
        },
    }
}

/// The text the encoder writes for `d` at nesting depth `depth`.
pub open spec fn encode(d: Doc, depth: nat) -> Seq<char>
    decreases d, 0int,
{
    match d {
        Doc::Str(t) => quoted(t),
        Doc::Bool(b) => quoted(bool_text(b)),
        Doc::Int(n) => quoted(int_text(n)),
        Doc::List(items) => seq!['{'] + encode_items(items, depth + 1, 0) + closing(depth),
        Doc::Record(keys, values) => seq!['{'] + encode_entries(keys, values, depth + 1, 0)
            + closing(depth),
    }
}

/// The text of the elements of a sequence from position `k` on.
pub open spec fn encode_items(items: Seq<Doc>, depth: nat, k: int) -> Seq<char>
    decreases items, items.len() - k,
{
    if 0 <= k < items.len() {
        element_header(depth, k as nat) + encode(items[k], depth) + encode_items(
            items,
            depth,
            k + 1,
        )
    } else {
        Seq::empty()
    }
}

/// The text of the entries of a mapping from position `k` on.
pub open spec fn encode_entries(keys: Seq<Seq<char>>, values: Seq<Doc>, depth: nat, k: int) -> Seq<
    char,
>
    decreases values, values.len() - k,
{
    if 0 <= k < values.len() {
        entry_start(depth) + quoted(keys[k]) + separator() + encode(values[k], depth)
            + encode_entries(keys, values, depth, k + 1)
    } else {
        Seq::empty()
    }
}

/// What the decoder reads from `s` at `i` when `sh` is requested: the value
/// and where the cursor stands after it, or nothing when the decode fails.
pub open spec fn decode(s: Seq<char>, i: int, sh: Shape) -> Option<(Doc, int)>
    decreases sh, 0int,
{
    match sh {
        Shape::Str => if scalar_at(s, i) is Ok {
            Some((Doc::Str(scalar_text(s, i)), scalar_end(s, i)))
        } else {
            None
        },
        Shape::Bool => if scalar_at(s, i) is Ok && scalar_text(s, i) == seq!['1'] {
            Some((Doc::Bool(true), scalar_end(s, i)))
        } else if scalar_at(s, i) is Ok && scalar_text(s, i) == seq!['0'] {
            Some((Doc::Bool(false), scalar_end(s, i)))
        } else {
            None
        },
        Shape::Int { min, max } => {
            let v = signed_value(scalar_text(s, i));
            if scalar_at(s, i) is Ok && v is Some && min <= v->Some_0 <= max {
                Some((Doc::Int(v->Some_0), scalar_end(s, i)))
            } else {
                None
            }
        },
        Shape::UInt { max } => {
            let v = unsigned_value(scalar_text(s, i));
            if scalar_at(s, i) is Ok && v is Some && v->Some_0 <= max {
                Some((Doc::Int(v->Some_0), scalar_end(s, i)))
            } else {
                None
            }
        },
        Shape::List(shapes) => if next_is(s, i, '{') {
            match decode_items(s, skip_ws(s, i) + 1, shapes, 0) {
                Some((items, e)) => Some((Doc::List(items), e)),
                None => None,
            }
        } else {
            None
        },
        Shape::Record(shapes) => if next_is(s, i, '{') {
            match decode_entries(s, skip_ws(s, i) + 1, shapes, 0, false) {
                Some((keys, values, e)) => Some((Doc::Record(keys, values), e)),
                None => None,
            }
        } else {
            None
        },
    }
}

/// The elements of an open sequence from position `k` on, then its `}`.
pub open spec fn decode_items(s: Seq<char>, i: int, shapes: Seq<Shape>, k: int) -> Option<
    (Seq<Doc>, int),
>
    decreases shapes, shapes.len() - k,
{
    if k < 0 || k > shapes.len() {
        None
    } else if k == shapes.len() {
        if next_is(s, i, '}') {
            Some((Seq::empty(), skip_ws(s, i) + 1))
        } else {
            None
        }
    } else if !next_is(s, i, '}') && scalar_at(s, i) is Ok && scalar_text(s, i) == nat_text(
        k as nat,
    ) {
        match decode(s, scalar_end(s, i), shapes[k]) {
            Some((d, e)) => match decode_items(s, e, shapes, k + 1) {
                Some((rest, e2)) => Some((seq![d] + rest, e2)),
                None => None,
            },
            None => None,
        }
    } else {
        None
    }
}

/// The entries of an open mapping from position `k` on, then its `}`; the
/// root mapping without braces also ends where no key follows.
pub open spec fn decode_entries(s: Seq<char>, i: int, shapes: Seq<Shape>, k: int, root: bool) -> Option<
    (Seq<Seq<char>>, Seq<Doc>, int),
>
    decreases shapes, shapes.len() - k,
{
    if k < 0 || k > shapes.len() {
        None
    } else if k == shapes.len() {
        if next_is(s, i, '}') {
            Some((Seq::empty(), Seq::empty(), skip_ws(s, i) + 1))
        } else if root && !next_is(s, i, '"') {
            Some((Seq::empty(), Seq::empty(), i))
        } else {
            None
        }
    } else if skip_ws(s, i) < s.len() && !next_is(s, i, '}') && scalar_at(s, i) is Ok {
        match decode(s, scalar_end(s, i), shapes[k]) {
            Some((d, e)) => match decode_entries(s, e, shapes, k + 1, root) {
                Some((keys, values, e2)) => Some(
                    (seq![scalar_text(s, i)] + keys, seq![d] + values, e2),
                ),
                None => None,
            },
            None => None,
        }
    } else {
        None
    }
}

/// What the decoder reads from a whole document when a mapping with value
/// shapes `shapes` is requested at its root. The root needs no braces; when
/// it has none, its entries run up to the first place where no key follows.
/// Only whitespace may follow it.
pub open spec fn decode_document(s: Seq<char>, shapes: Seq<Shape>) -> Option<Doc> {
    let braced = next_is(s, 0, '{');
    let start = if braced {
        skip_ws(s, 0) + 1
    } else {
        0
    };
    match decode_entries(s, start, shapes, 0, !braced) {
        Some((keys, values, e)) => if skip_ws(s, e) >= s.len() {
            Some(Doc::Record(keys, values))
        } else {
            None
        },
        None => None,
    }
}

/// `s` holds only whitespace from `i` to `j`.
pub open spec fn ws_between(s: Seq<char>, i: int, j: int) -> bool {
    forall|k: int| i <= k < j ==> is_ws(#[trigger] s[k])
}

proof fn lemma_skip_ws_run(s: Seq<char>, i: int, j: int)
    requires
        0 <= i <= j <= s.len(),
        ws_between(s, i, j),
    ensures
        skip_ws(s, i) == skip_ws(s, j),
    decreases j - i,
{
    if i < j {
        lemma_skip_ws_run(s, i + 1, j);
    }
}

proof fn lemma_skip_ws_bounds(s: Seq<char>, i: int)
    requires
        0 <= i <= s.len(),
    ensures
        i <= skip_ws(s, i) <= s.len(),
        ws_between(s, i, skip_ws(s, i)),
        skip_ws(s, skip_ws(s, i)) == skip_ws(s, i),
    decreases s.len() - i,
{
    if i < s.len() && is_ws(s[i]) {
        lemma_skip_ws_bounds(s, i + 1);
    }
}

proof fn lemma_find_quote_run(s: Seq<char>, i: int, j: int)
    requires
        0 <= i <= j <= s.len(),
        forall|k: int| i <= k < j ==> s[k] != '"',
    ensures
        find_quote(s, i) == find_quote(s, j),
    decreases j - i,
{
    if i < j {
        lemma_find_quote_run(s, i + 1, j);
    }
}


/// `x` occurs in `s` at `p`.
pub open spec fn at(s: Seq<char>, p: int, x: Seq<char>) -> bool {
    0 <= p && p + x.len() <= s.len() && s.subrange(p, p + x.len()) == x
}

proof fn lemma_at_split(s: Seq<char>, p: int, x: Seq<char>, y: Seq<char>)
    requires
        at(s, p, x + y),
    ensures
        at(s, p, x),
        at(s, p + x.len(), y),
{
    let xy = x + y;
    assert forall|j: int| 0 <= j < x.len() implies s.subrange(p, p + x.len())[j] == x[j] by {
        assert(s.subrange(p, p + xy.len())[j] == xy[j]);
    }
    assert(s.subrange(p, p + x.len()) =~= x);
    assert forall|j: int| 0 <= j < y.len() implies s.subrange(p + x.len(), p + x.len() + y.len())[j]
        == y[j] by {
        assert(s.subrange(p, p + xy.len())[x.len() + j] == xy[x.len() + j]);
    }
    assert(s.subrange(p + x.len(), p + x.len() + y.len()) =~= y);
}

proof fn lemma_at_index(s: Seq<char>, p: int, x: Seq<char>, j: int)
    requires
        at(s, p, x),
        0 <= j < x.len(),
    ensures
        s[p + j] == x[j],
{
    assert(s.subrange(p, p + x.len())[j] == x[j]);
}

/// Whitespace from `i` to `p`, then a significant character at `p`: the
/// scanner lands on `p`.
proof fn lemma_skip_to(s: Seq<char>, i: int, p: int)
    requires
        0 <= i <= p < s.len(),
        ws_between(s, i, p),
        !is_ws(s[p]),
    ensures
        skip_ws(s, i) == p,
{
    lemma_skip_ws_run(s, i, p);
}

/// A run of `n` tabs after a newline at `p` is whitespace.
proof fn lemma_entry_start_ws(s: Seq<char>, p: int, n: nat)
    requires
        at(s, p, entry_start(n)),
    ensures
        ws_between(s, p, p + 1 + n),
{
    assert forall|k: int| p <= k < p + 1 + n implies is_ws(#[trigger] s[k]) by {
        lemma_at_index(s, p, entry_start(n), k - p);
    }
}

/// A quoted scalar without `"` inside, after whitespace from `i`, is read
/// back as its content.
proof fn lemma_quoted(s: Seq<char>, i: int, p: int, t: Seq<char>)
    requires
        0 <= i <= p,
        ws_between(s, i, p),
        at(s, p, quoted(t)),
        no_quote(t),
    ensures
        skip_ws(s, i) == p,
        s[p] == '"',
        scalar_at(s, i) == Ok::<(int, int), crate::error::Error>((p + 1, p + 1 + t.len())),
        scalar_text(s, i) == t,
        scalar_end(s, i) == p + quoted(t).len(),
{
    let q = quoted(t);
    lemma_at_index(s, p, q, 0);
    lemma_skip_to(s, i, p);
    assert forall|k: int| p + 1 <= k < p + 1 + t.len() implies s[k] != '"' by {
        lemma_at_index(s, p, q, k - p);
        assert(q[k - p] == t[k - p - 1]);
    }
    lemma_find_quote_run(s, p + 1, p + 1 + t.len());
    lemma_at_index(s, p, q, t.len() as int + 1);
    assert(s.subrange(p + 1, p + 1 + t.len()) =~= t) by {
        assert forall|j: int| 0 <= j < t.len() implies s.subrange(p + 1, p + 1 + t.len())[j]
            == t[j] by {
            lemma_at_index(s, p, q, j + 1);
        }
    }
}

proof fn lemma_int_text_no_quote(n: int)
    ensures
        no_quote(int_text(n)),
        n >= 0 ==> int_text(n) == nat_text(n as nat),
{
    let m: nat = if n < 0 {
        (-n) as nat
    } else {
        n as nat
    };
    crate::text::lemma_nat_text(m);
    assert forall|k: int| 0 <= k < int_text(n).len() implies int_text(n)[k] != '"' by {
        if n < 0 {
            if k > 0 {
                assert(int_text(n)[k] == nat_text(m)[k - 1]);
            }
        } else {
            assert(crate::text::is_digit(nat_text(m)[k]));
        }
    }
}

/// Decoding the text that the encoder writes for `d`, with a shape that `d`
/// fits, after any whitespace, gives `d` back and stops right after its text.
pub proof fn lemma_decode_encode(d: Doc, sh: Shape, depth: nat, s: Seq<char>, i: int, p: int)
    requires
        fits(d, sh),
        0 <= i <= p,
        ws_between(s, i, p),
        at(s, p, encode(d, depth)),
    ensures
        decode(s, i, sh) == Some((d, p + encode(d, depth).len())),
    decreases d, 0int,
{
    match d {
        Doc::Str(t) => {
            lemma_quoted(s, i, p, t);
        },
        Doc::Bool(b) => {
            lemma_quoted(s, i, p, bool_text(b));
        },
        Doc::Int(n) => {
            lemma_int_text_no_quote(n);
            lemma_quoted(s, i, p, int_text(n));
            lemma_int_text_round_trip(n);
        },
        Doc::List(items) => {
            let shapes = sh->List_0;
            let body = encode_items(items, depth + 1, 0);
            assert(encode(d, depth) == seq!['{'] + (body + closing(depth)));
            lemma_at_split(s, p, seq!['{'], body + closing(depth));
            lemma_at_index(s, p, seq!['{'], 0);
            lemma_skip_to(s, i, p);
            lemma_decode_items(items, shapes, depth + 1, depth, s, p + 1, 0);
            assert(items.subrange(0, items.len() as int) =~= items);
        },
        Doc::Record(keys, values) => {
            let shapes = sh->Record_0;
            let body = encode_entries(keys, values, depth + 1, 0);
            assert(encode(d, depth) == seq!['{'] + (body + closing(depth)));
            lemma_at_split(s, p, seq!['{'], body + closing(depth));
            lemma_at_index(s, p, seq!['{'], 0);
            lemma_skip_to(s, i, p);
            lemma_decode_entries(keys, values, shapes, depth + 1, depth, s, p + 1, 0);
            assert(keys.subrange(0, keys.len() as int) =~= keys);
            assert(values.subrange(0, values.len() as int) =~= values);
        },
    }
}

proof fn lemma_closing(s: Seq<char>, i: int, cd: nat)
    requires
        at(s, i, closing(cd)),
    ensures
        next_is(s, i, '}'),
        skip_ws(s, i) + 1 == i + closing(cd).len(),
{
    assert(closing(cd) == entry_start(cd) + seq!['}']);
    lemma_at_split(s, i, entry_start(cd), seq!['}']);
    lemma_entry_start_ws(s, i, cd);
    lemma_at_index(s, i + 1 + cd, seq!['}'], 0);
    lemma_skip_to(s, i, i + 1 + cd);
}

proof fn lemma_decode_items(
    items: Seq<Doc>,
    shapes: Seq<Shape>,
    dd: nat,
    cd: nat,
    s: Seq<char>,
    i: int,
    k: int,
)
    requires
        0 <= k <= items.len(),
        items.len() == shapes.len(),
        forall|j: int| 0 <= j < items.len() ==> fits(#[trigger] items[j], shapes[j]),
        at(s, i, encode_items(items, dd, k) + closing(cd)),
    ensures
        decode_items(s, i, shapes, k) == Some(
            (
                items.subrange(k, items.len() as int),
                i + encode_items(items, dd, k).len() + closing(cd).len(),
            ),
        ),
    decreases items, items.len() - k,
{
    if k == items.len() {
        assert(encode_items(items, dd, k) + closing(cd) =~= closing(cd));
        lemma_closing(s, i, cd);
        assert(items.subrange(k, items.len() as int) =~= Seq::<Doc>::empty());
    } else {
        let key = quoted(nat_text(k as nat));
        let value = encode(items[k], dd);
        let rest = encode_items(items, dd, k + 1);
        let all = encode_items(items, dd, k) + closing(cd);
        assert(all =~= entry_start(dd) + key + separator() + value + (rest + closing(cd)));
        lemma_at_split(s, i, entry_start(dd) + key + separator() + value, rest + closing(cd));
        lemma_at_split(s, i, entry_start(dd) + key + separator(), value);
        lemma_at_split(s, i, entry_start(dd) + key, separator());
        lemma_at_split(s, i, entry_start(dd), key);
        lemma_entry_start_ws(s, i, dd);
        lemma_int_text_no_quote(k);
        let q = i + 1 + dd;
        lemma_quoted(s, i, q, nat_text(k as nat));
        let e0 = q + key.len();
        assert forall|j: int| e0 <= j < e0 + 2 implies is_ws(#[trigger] s[j]) by {
            lemma_at_index(s, e0, separator(), j - e0);
        }
        lemma_decode_encode(items[k], shapes[k], dd, s, e0, e0 + 2);
        lemma_decode_items(items, shapes, dd, cd, s, e0 + 2 + value.len(), k + 1);
        assert(seq![items[k]] + items.subrange(k + 1, items.len() as int) =~= items.subrange(
            k,
            items.len() as int,
        ));
    }
}

proof fn lemma_decode_entries(
    keys: Seq<Seq<char>>,
    values: Seq<Doc>,
    shapes: Seq<Shape>,
    dd: nat,
    cd: nat,
    s: Seq<char>,
    i: int,
    k: int,
)
    requires
        0 <= k <= values.len(),
        keys.len() == values.len(),
        values.len() == shapes.len(),
        forall|j: int| 0 <= j < keys.len() ==> no_quote(#[trigger] keys[j]),
        forall|j: int| 0 <= j < values.len() ==> fits(#[trigger] values[j], shapes[j]),
        at(s, i, encode_entries(keys, values, dd, k) + closing(cd)),
    ensures
        decode_entries(s, i, shapes, k, false) == Some(
            (
                keys.subrange(k, keys.len() as int),
                values.subrange(k, values.len() as int),
                i + encode_entries(keys, values, dd, k).len() + closing(cd).len(),
            ),
        ),
    decreases values, values.len() - k,
{
    if k == values.len() {
        assert(encode_entries(keys, values, dd, k) + closing(cd) =~= closing(cd));
        lemma_closing(s, i, cd);
        assert(keys.subrange(k, keys.len() as int) =~= Seq::<Seq<char>>::empty());
        assert(values.subrange(k, values.len() as int) =~= Seq::<Doc>::empty());
    } else {
        let key = quoted(keys[k]);
        let value = encode(values[k], dd);
        let rest = encode_entries(keys, values, dd, k + 1);
        let all = encode_entries(keys, values, dd, k) + closing(cd);
        assert(all =~= entry_start(dd) + key + separator() + value + (rest + closing(cd)));
        lemma_at_split(s, i, entry_start(dd) + key + separator() + value, rest + closing(cd));
        lemma_at_split(s, i, entry_start(dd) + key + separator(), value);
        lemma_at_split(s, i, entry_start(dd) + key, separator());
        lemma_at_split(s, i, entry_start(dd), key);
        lemma_entry_start_ws(s, i, dd);
        let q = i + 1 + dd;
        lemma_quoted(s, i, q, keys[k]);
        let e0 = q + key.len();
        assert forall|j: int| e0 <= j < e0 + 2 implies is_ws(#[trigger] s[j]) by {
            lemma_at_index(s, e0, separator(), j - e0);
        }
        lemma_decode_encode(values[k], shapes[k], dd, s, e0, e0 + 2);
        lemma_decode_entries(keys, values, shapes, dd, cd, s, e0 + 2 + value.len(), k + 1);
        assert(seq![keys[k]] + keys.subrange(k + 1, keys.len() as int) =~= keys.subrange(
            k,
            keys.len() as int,
        ));
        assert(seq![values[k]] + values.subrange(k + 1, values.len() as int) =~= values.subrange(
            k,
            values.len() as int,
        ));
    }
}


/// Decoding a whole document that the encoder wrote for a mapping `d`, with
/// a shape that `d` fits, gives `d` back.
pub proof fn lemma_document_round_trip(d: Doc, sh: Shape)
    requires
        fits(d, sh),
        sh is Record,
    ensures
        decode_document(encode(d, 0), sh->Record_0) == Some(d),
{
    let s = encode(d, 0);
    assert(s.subrange(0, s.len() as int) =~= s);
    lemma_decode_encode(d, sh, 0, s, 0, 0);
    lemma_at_index(s, 0, s, 0);
    lemma_skip_to(s, 0, 0);
    lemma_skip_ws_bounds(s, s.len() as int);
}

/// Whitespace before the next token changes nothing of what is decoded.
pub proof fn lemma_leading_whitespace(s: Seq<char>, i: int, j: int, sh: Shape)
    requires
        0 <= i <= j <= s.len(),
        ws_between(s, i, j),
    ensures
        decode(s, i, sh) == decode(s, j, sh),
{
    lemma_skip_ws_run(s, i, j);
}

} // verus!
