//! The primitives of the stored byte format: variable-length integers,
//! length-prefixed UTF-8 texts, optional values and counted sequences.
//!
//! Each primitive is given as a pair of spec functions, one that writes a value
//! and one that reads it back at a position, and a lemma that the second undoes
//! the first wherever the written bytes stand.

use vstd::prelude::*;
use vstd::slice::*;
use vstd::string::*;
use vstd::utf8::*;

verus! {

/// The most bytes a variable-length integer may take.
pub const VARINT_LIMIT: usize = 10;

/// The largest length or count that the format holds.
pub open spec fn max_len() -> nat {
    0xffff_ffff_ffff_ffff
}

/// `n` in base 128, least significant digit first, every byte but the last
/// with its high bit set.
pub open spec fn varint(n: nat) -> Seq<u8>
    decreases n,
{
    if n < 128 {
        seq![n as u8]
    } else {
        seq![(n % 128 + 128) as u8] + varint(n / 128)
    }
}

/// `bytes` stands in `s` at `pos`.
pub open spec fn has_at(s: Seq<u8>, pos: int, bytes: Seq<u8>) -> bool {
    &&& 0 <= pos
    &&& pos + bytes.len() <= s.len()
    &&& s.subrange(pos, pos + bytes.len()) == bytes
}

/// What reading yields: the value and the position after it.
pub type Parsed<T> = Option<(T, int)>;

/// Reads a variable-length integer of at most `limit` bytes and of value at
/// most `max` at `pos`.
pub open spec fn parse_varint(s: Seq<u8>, pos: int, limit: nat, max: nat) -> Parsed<nat>
    decreases limit,
{
    if limit == 0 || pos < 0 || pos >= s.len() {
        None
    } else if s[pos] < 128 {
        if s[pos] <= max {
            Some((s[pos] as nat, pos + 1))
        } else {
            None
        }
    } else {
        match parse_varint(s, pos + 1, (limit - 1) as nat, max) {
            Some((high, next)) => {
                let value = (s[pos] - 128) as nat + 128 * high;
                if value <= max {
                    Some((value, next))
                } else {
                    None
                }
            },
            None => None,
        }
    }
}

/// A length or count at `pos`.
pub open spec fn parse_len(s: Seq<u8>, pos: int) -> Parsed<nat> {
    parse_varint(s, pos, VARINT_LIMIT as nat, max_len())
}

/// 128 to the power `digits`.
pub open spec fn radix_bound(digits: nat) -> nat
    decreases digits,
{
    if digits == 0 {
        1
    } else {
        128 * radix_bound((digits - 1) as nat)
    }
}

/// A text: the length of its UTF-8 form, then that form.
pub open spec fn text(t: Seq<char>) -> Seq<u8> {
    varint(encode_utf8(t).len()) + encode_utf8(t)
}

/// Reads a text at `pos`.
pub open spec fn parse_text(s: Seq<u8>, pos: int) -> Parsed<Seq<char>> {
    match parse_len(s, pos) {
        Some((len, start)) => if start + len <= s.len() && valid_utf8(
            s.subrange(start, start + len),
        ) {
            Some((decode_utf8(s.subrange(start, start + len)), start + len))
        } else {
            None
        },
        None => None,
    }
}

/// An optional value: a zero byte, or a one byte and the value.
pub open spec fn optional<T>(value: Option<T>, write: spec_fn(T) -> Seq<u8>) -> Seq<u8> {
    match value {
        None => seq![0u8],
        Some(inner) => seq![1u8] + write(inner),
    }
}

/// Reads an optional value at `pos`.
pub open spec fn parse_optional<T>(s: Seq<u8>, pos: int, read: spec_fn(Seq<u8>, int) -> Parsed<T>)
    -> Parsed<Option<T>> {
    if pos < 0 || pos >= s.len() {
        None
    } else if s[pos] == 0 {
        Some((None, pos + 1))
    } else if s[pos] == 1 {
        match read(s, pos + 1) {
            Some((inner, next)) => Some((Some(inner), next)),
            None => None,
        }
    } else {
        None
    }
}

/// The items one after the other.
pub open spec fn items<T>(values: Seq<T>, write: spec_fn(T) -> Seq<u8>) -> Seq<u8>
    decreases values.len(),
{
    if values.len() == 0 {
        Seq::empty()
    } else {
        write(values[0]) + items(values.drop_first(), write)
    }
}

/// Reads `count` items from `pos` on.
pub open spec fn parse_items<T>(
    s: Seq<u8>,
    pos: int,
    count: nat,
    read: spec_fn(Seq<u8>, int) -> Parsed<T>,
) -> Parsed<Seq<T>>
    decreases count,
{
    if count == 0 {
        Some((Seq::empty(), pos))
    } else {
        match read(s, pos) {
            Some((first, next)) => match parse_items(s, next, (count - 1) as nat, read) {
                Some((rest, end)) => Some((seq![first] + rest, end)),
                None => None,
            },
            None => None,
        }
    }
}

/// A sequence: the number of its items, then the items. No item is empty, so
/// a sequence never holds more items than bytes.
pub open spec fn counted<T>(values: Seq<T>, write: spec_fn(T) -> Seq<u8>) -> Seq<u8> {
    varint(values.len()) + items(values, write)
}

/// Reads a sequence at `pos`.
pub open spec fn parse_counted<T>(s: Seq<u8>, pos: int, read: spec_fn(Seq<u8>, int) -> Parsed<T>)
    -> Parsed<Seq<T>> {
    match parse_len(s, pos) {
        Some((count, start)) => if count <= s.len() - start {
            parse_items(s, start, count, read)
        } else {
            None
        },
        None => None,
    }
}

/// `front` before what was read, if anything was.
pub open spec fn prepend<T>(front: Seq<T>, rest: Parsed<Seq<T>>) -> Parsed<Seq<T>> {
    match rest {
        Some((values, end)) => Some((front + values, end)),
        None => None,
    }
}

/// `read` undoes `write` on `value`, wherever the written bytes stand.
#[verifier::opaque]
pub open spec fn reads_back<T>(
    value: T,
    write: spec_fn(T) -> Seq<u8>,
    read: spec_fn(Seq<u8>, int) -> Parsed<T>,
) -> bool {
    forall|s: Seq<u8>, pos: int| #[trigger]
        has_at(s, pos, write(value)) ==> read(s, pos) == Some((value, pos + write(value).len()))
}

/// Where `a + b` stands, `a` stands, and `b` right behind it.
pub proof fn lemma_has_at_split(s: Seq<u8>, pos: int, a: Seq<u8>, b: Seq<u8>)
    requires
        has_at(s, pos, a + b),
    ensures
        has_at(s, pos, a),
        has_at(s, pos + a.len(), b),
{
    let whole = s.subrange(pos, pos + (a + b).len());
    assert(s.subrange(pos, pos + a.len()) =~= whole.subrange(0, a.len() as int));
    assert(whole.subrange(0, a.len() as int) =~= a);
    assert(s.subrange(pos + a.len(), pos + a.len() + b.len()) =~= whole.subrange(
        a.len() as int,
        (a + b).len() as int,
    ));
    assert(whole.subrange(a.len() as int, (a + b).len() as int) =~= b);
}

/// A variable-length integer below `128^digits` takes at most `digits` bytes
/// and is read back.
pub proof fn lemma_parse_varint(s: Seq<u8>, pos: int, n: nat, limit: nat, max: nat)
    requires
        has_at(s, pos, varint(n)),
        limit >= 1,
        n < radix_bound(limit),
        n <= max,
    ensures
        parse_varint(s, pos, limit, max) == Some((n, pos + varint(n).len())),
        varint(n).len() <= limit,
        varint(n).len() >= 1,
    decreases n,
{
    assert(s[pos] == s.subrange(pos, pos + varint(n).len())[0]);
    if n >= 128 {
        let rest = varint(n / 128);
        let first = seq![(n % 128 + 128) as u8];
        lemma_has_at_split(s, pos, first, rest);
        assert(limit >= 2) by {
            reveal_with_fuel(radix_bound, 2);
        }
        assert(n / 128 < radix_bound((limit - 1) as nat));
        lemma_parse_varint(s, pos + 1, n / 128, (limit - 1) as nat, max);
        assert(s[pos] == (n % 128 + 128) as u8);
        assert((s[pos] - 128) as nat + 128 * (n / 128) == n);
    }
}

/// Reading a variable-length integer moves forward and stays within `s`.
pub proof fn lemma_parse_varint_advances(s: Seq<u8>, pos: int, limit: nat, max: nat)
    ensures
        parse_varint(s, pos, limit, max) matches Some((value, next)) ==> pos < next <= s.len()
            && value <= max,
    decreases limit,
{
    if limit != 0 && 0 <= pos < s.len() && s[pos] >= 128 {
        lemma_parse_varint_advances(s, pos + 1, (limit - 1) as nat, max);
    }
}

/// `128^10` exceeds every length of the format.
pub proof fn lemma_radix_bound_limit()
    ensures
        radix_bound(VARINT_LIMIT as nat) > max_len(),
{
    reveal_with_fuel(radix_bound, 11);
}

/// A length is read back.
pub proof fn lemma_parse_len(s: Seq<u8>, pos: int, n: nat)
    requires
        has_at(s, pos, varint(n)),
        n <= max_len(),
    ensures
        parse_len(s, pos) == Some((n, pos + varint(n).len())),
{
    lemma_radix_bound_limit();
    lemma_parse_varint(s, pos, n, VARINT_LIMIT as nat, max_len());
}

/// A text whose UTF-8 form is not longer than the format allows is read back.
pub proof fn lemma_parse_text(s: Seq<u8>, pos: int, t: Seq<char>)
    requires
        has_at(s, pos, text(t)),
        encode_utf8(t).len() <= max_len(),
    ensures
        parse_text(s, pos) == Some((t, pos + text(t).len())),
{
    let utf8 = encode_utf8(t);
    lemma_has_at_split(s, pos, varint(utf8.len()), utf8);
    lemma_parse_len(s, pos, utf8.len());
    encode_utf8_valid_utf8(t);
    encode_utf8_decode_utf8(t);
}

/// An optional value is read back if its inner value is.
pub proof fn lemma_parse_optional<T>(
    s: Seq<u8>,
    pos: int,
    value: Option<T>,
    write: spec_fn(T) -> Seq<u8>,
    read: spec_fn(Seq<u8>, int) -> Parsed<T>,
)
    requires
        has_at(s, pos, optional(value, write)),
        value matches Some(inner) ==> reads_back(inner, write, read),
    ensures
        parse_optional(s, pos, read) == Some((value, pos + optional(value, write).len())),
{
    assert(s[pos] == s.subrange(pos, pos + optional(value, write).len())[0]);
    match value {
        None => {},
        Some(inner) => {
            reveal(reads_back);
            lemma_has_at_split(s, pos, seq![1u8], write(inner));
            assert(has_at(s, pos + 1, write(inner)));
        },
    }
}

/// Items are read back if each of them is.
pub proof fn lemma_parse_items<T>(
    s: Seq<u8>,
    pos: int,
    values: Seq<T>,
    write: spec_fn(T) -> Seq<u8>,
    read: spec_fn(Seq<u8>, int) -> Parsed<T>,
)
    requires
        has_at(s, pos, items(values, write)),
        forall|i: int| 0 <= i < values.len() ==> reads_back(#[trigger] values[i], write, read),
    ensures
        parse_items(s, pos, values.len(), read) == Some(
            (values, pos + items(values, write).len()),
        ),
    decreases values.len(),
{
    if values.len() == 0 {
        assert(values =~= Seq::empty());
    } else {
        let rest = values.drop_first();
        lemma_has_at_split(s, pos, write(values[0]), items(rest, write));
        assert(read(s, pos) == Some((values[0], pos + write(values[0]).len()))) by {
            reveal(reads_back);
            assert(reads_back(values[0], write, read));
            assert(has_at(s, pos, write(values[0])));
        }
        assert forall|i: int| 0 <= i < rest.len() implies reads_back(
            #[trigger] rest[i],
            write,
            read,
        ) by {
            assert(rest[i] == values[i + 1]);
        }
        lemma_parse_items(s, pos + write(values[0]).len(), rest, write, read);
        assert(seq![values[0]] + rest =~= values);
    }
}

/// A variable-length integer takes at least one byte.
pub proof fn lemma_varint_not_empty(n: nat)
    ensures
        varint(n).len() >= 1,
{
}

/// Items that each take at least one byte take at least as many bytes as
/// there are items.
pub proof fn lemma_items_len<T>(values: Seq<T>, write: spec_fn(T) -> Seq<u8>)
    requires
        forall|i: int| 0 <= i < values.len() ==> write(#[trigger] values[i]).len() >= 1,
    ensures
        items(values, write).len() >= values.len(),
    decreases values.len(),
{
    if values.len() > 0 {
        let rest = values.drop_first();
        assert forall|i: int| 0 <= i < rest.len() implies write(#[trigger] rest[i]).len()
            >= 1 by {
            assert(rest[i] == values[i + 1]);
        }
        lemma_items_len(rest, write);
        assert(write(values[0]).len() >= 1);
    }
}

/// Reading one item of `count` and then the rest is reading all of them.
pub proof fn lemma_parse_items_step<T>(
    s: Seq<u8>,
    pos: int,
    count: nat,
    read: spec_fn(Seq<u8>, int) -> Parsed<T>,
    front: Seq<T>,
)
    requires
        count > 0,
    ensures
        match read(s, pos) {
            Some((value, next)) => prepend(front, parse_items(s, pos, count, read)) == prepend(
                front.push(value),
                parse_items(s, next, (count - 1) as nat, read),
            ),
            None => parse_items(s, pos, count, read) is None,
        },
{
    match read(s, pos) {
        Some((value, next)) => {
            match parse_items(s, next, (count - 1) as nat, read) {
                Some((rest, end)) => {
                    assert(front + (seq![value] + rest) =~= front.push(value) + rest);
                },
                None => {},
            }
        },
        None => {},
    }
}

/// A sequence is read back if each of its items is, none of them is empty,
/// and their number is not more than the format allows.
pub proof fn lemma_parse_counted<T>(
    s: Seq<u8>,
    pos: int,
    values: Seq<T>,
    write: spec_fn(T) -> Seq<u8>,
    read: spec_fn(Seq<u8>, int) -> Parsed<T>,
)
    requires
        has_at(s, pos, counted(values, write)),
        values.len() <= max_len(),
        forall|i: int| 0 <= i < values.len() ==> reads_back(#[trigger] values[i], write, read),
        forall|i: int| 0 <= i < values.len() ==> write(#[trigger] values[i]).len() >= 1,
    ensures
        parse_counted(s, pos, read) == Some((values, pos + counted(values, write).len())),
{
    lemma_items_len(values, write);
    lemma_has_at_split(s, pos, varint(values.len()), items(values, write));
    lemma_parse_len(s, pos, values.len());
    lemma_parse_items(s, pos + varint(values.len()).len(), values, write, read);
}

/// The items up to and including the `i`-th are the items before it and then
/// the `i`-th.
pub proof fn lemma_items_push<T>(values: Seq<T>, i: int, write: spec_fn(T) -> Seq<u8>)
    requires
        0 <= i < values.len(),
    ensures
        items(values.take(i + 1), write) == items(values.take(i), write) + write(values[i]),
    decreases i,
{
    let upto = values.take(i + 1);
    if i == 0 {
        assert(upto.drop_first() =~= Seq::<T>::empty());
        assert(values.take(0) =~= Seq::<T>::empty());
        assert(items(upto.drop_first(), write) =~= Seq::<u8>::empty());
        assert(items(upto, write) =~= write(values[0]));
        assert(items(values.take(0), write) + write(values[0]) =~= write(values[0]));
    } else {
        let tail = values.drop_first();
        lemma_items_push(tail, i - 1, write);
        assert(upto.drop_first() =~= tail.take(i));
        assert(values.take(i).drop_first() =~= tail.take(i - 1));
        assert(tail[i - 1] == values[i]);
        assert(upto[0] == values[0]);
        assert(values.take(i)[0] == values[0]);
        assert(items(upto, write) =~= items(values.take(i), write) + write(values[i]));
    }
}

/// `String::from_utf8`: the text that a vector of bytes holds, if the bytes are
/// valid UTF-8, and nothing otherwise.
#[verifier::external_body]
fn string_from_utf8(bytes: Vec<u8>) -> (decoded: Option<String>)
    ensures
        match decoded {
            Some(t) => valid_utf8(bytes@) && t@ == decode_utf8(bytes@),
            None => !valid_utf8(bytes@),
        },
{
    String::from_utf8(bytes).ok()
}

/// Appends the variable-length form of `n`.
pub fn write_varint(out: &mut Vec<u8>, n: u128)
    ensures
        final(out)@ == old(out)@ + varint(n as nat),
    decreases n,
{
    if n < 128 {
        out.push(n as u8);
        assert(out@ =~= old(out)@ + varint(n as nat));
    } else {
        out.push((n % 128 + 128) as u8);
        write_varint(out, n / 128);
        assert(out@ =~= old(out)@ + varint(n as nat));
    }
}

/// Reads a variable-length integer of at most `limit` bytes and of value at
/// most `max` at `pos`.
pub fn read_varint(bytes: &[u8], pos: usize, limit: usize, max: u128) -> (parsed: Option<
    (u128, usize),
>)
    ensures
        match parsed {
            Some((value, next)) => parse_varint(bytes@, pos as int, limit as nat, max as nat)
                == Some((value as nat, next as int)) && pos < next <= bytes.len() && value <= max,
            None => parse_varint(bytes@, pos as int, limit as nat, max as nat) is None,
        },
    decreases limit,
{
    if limit == 0 || pos >= bytes.len() {
        return None;
    }
    let byte = bytes[pos];
    if byte < 128 {
        if byte as u128 <= max {
            Some((byte as u128, pos + 1))
        } else {
            None
        }
    } else {
        match read_varint(bytes, pos + 1, limit - 1, max) {
            Some((high, next)) => {
                let low = (byte - 128) as u128;
                if low > max || high > (max - low) / 128 {
                    None
                } else {
                    Some((low + 128 * high, next))
                }
            },
            None => None,
        }
    }
}

/// Reads a length or count at `pos`.
pub fn read_len(bytes: &[u8], pos: usize) -> (parsed: Option<(usize, usize)>)
    ensures
        match parsed {
            Some((len, next)) => parse_len(bytes@, pos as int) == Some((len as nat, next as int))
                && pos < next <= bytes.len(),
            None => match parse_len(bytes@, pos as int) {
                Some((len, _)) => len > usize::MAX,
                None => true,
            },
        },
{
    match read_varint(bytes, pos, VARINT_LIMIT, 0xffff_ffff_ffff_ffff) {
        Some((value, next)) => {
            if value <= usize::MAX as u128 {
                Some((value as usize, next))
            } else {
                None
            }
        },
        None => None,
    }
}

/// Appends a text.
pub fn write_text(out: &mut Vec<u8>, t: &str)
    ensures
        final(out)@ == old(out)@ + text(t@),
        encode_utf8(t@).len() <= max_len(),
{
    let mut utf8 = t.as_bytes_vec();
    write_varint(out, utf8.len() as u128);
    out.append(&mut utf8);
    assert(out@ =~= old(out)@ + text(t@));
}

/// Reads a text at `pos`.
pub fn read_text(bytes: &[u8], pos: usize) -> (parsed: Option<(String, usize)>)
    ensures
        match parsed {
            Some((t, next)) => parse_text(bytes@, pos as int) == Some((t@, next as int)) && pos
                < next <= bytes.len(),
            None => parse_text(bytes@, pos as int) is None,
        },
{
    match read_len(bytes, pos) {
        Some((len, start)) => {
            if len > bytes.len() - start {
                return None;
            }
            let utf8 = slice_to_vec(slice_subrange(bytes, start, start + len));
            assert(utf8@ == bytes@.subrange(start as int, start + len));
            match string_from_utf8(utf8) {
                Some(t) => Some((t, start + len)),
                None => None,
            }
        },
        None => {
            proof {
                lemma_parse_varint_advances(bytes@, pos as int, VARINT_LIMIT as nat, max_len());
                assert(bytes@.len() == spec_slice_len(bytes));
            }
            None
        },
    }
}

} // verus!
