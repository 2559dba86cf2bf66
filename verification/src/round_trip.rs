//! Requests survive the wire: what a client encodes, the server decodes.

use vstd::prelude::*;
use vstd::utf8::*;
use crate::resp::{
    bulk_string_at, crlf, decoded, elements, encoding_of_all, lemma_first_line_end_found,
    line_end_at, line_end_from, preceded, RespView,
};
use crate::text::{all_digits, decimal, digits_value, is_digit, parse_decimal, unsigned_digits};

verus! {

/// The request with the given fields: an array of bulk strings.
pub open spec fn request(fields: Seq<Seq<char>>) -> RespView {
    RespView::Array(bulk_strings(fields))
}

/// The bulk strings with the given texts.
pub open spec fn bulk_strings(fields: Seq<Seq<char>>) -> Seq<RespView> {
    Seq::new(fields.len(), |i: int| RespView::BulkString(fields[i]))
}

proof fn lemma_decimal_digits(n: nat)
    ensures
        decimal(n).len() > 0,
        all_digits(decimal(n)),
        digits_value(decimal(n)) == n,
    decreases n,
{
    let d = decimal(n);
    if n >= 10 {
        lemma_decimal_digits(n / 10);
        assert(d.drop_last() =~= decimal(n / 10));
        assert(d.last() == 48 + n % 10);
        assert forall|i: int| 0 <= i < d.len() implies is_digit(#[trigger] d[i]) by {
            if i < d.len() - 1 {
                assert(d[i] == decimal(n / 10)[i]);
            }
        }
        assert(digits_value(d) == digits_value(d.drop_last()) * 10 + (d.last() - 48));
    } else {
        assert(d.drop_last() =~= Seq::<u8>::empty());
        assert(d.last() == 48 + n);
        assert(digits_value(d.drop_last()) == 0);
        assert(digits_value(d) == digits_value(d.drop_last()) * 10 + (d.last() - 48));
    }
}

/// The decimal digits of a number are read back as the number.
pub proof fn lemma_decimal_round_trip(n: nat, max: nat)
    requires
        n <= max,
    ensures
        parse_decimal(decimal(n), max) == Some(n),
{
    lemma_decimal_digits(n);
    assert(is_digit(decimal(n)[0]));
    assert(unsigned_digits(decimal(n)) == decimal(n));
}

/// The line end that stands right behind a number is the first one from
/// the number's first digit on.
proof fn lemma_line_end_behind_number(input: Seq<u8>, at: int, n: nat)
    requires
        0 <= at,
        at + decimal(n).len() <= input.len(),
        input.subrange(at, at + decimal(n).len()) == decimal(n),
        line_end_at(input, at + decimal(n).len()),
    ensures
        line_end_from(input, at) == at + decimal(n).len(),
{
    lemma_decimal_digits(n);
    let digits = decimal(n);
    let rest = input.skip(at);
    assert(line_end_at(rest, digits.len() as int));
    assert forall|k: int| 0 <= k < digits.len() implies !line_end_at(rest, k) by {
        assert(rest[k] == input.subrange(at, at + digits.len())[k]);
        assert(is_digit(digits[k]));
    }
    lemma_first_line_end_found(rest, digits.len() as int);
}

proof fn lemma_ascii_is_utf8(bytes: Seq<u8>)
    requires
        forall|k: int| 0 <= k < bytes.len() ==> #[trigger] bytes[k] < 128,
    ensures
        valid_utf8(bytes),
    decreases bytes.len(),
{
    if bytes.len() > 0 {
        let b = bytes[0];
        assert(b < 128);
        assert(b & 0x7F < 128) by (bit_vector);
        let rest = pop_first_scalar(bytes);
        assert(rest =~= bytes.skip(1));
        assert forall|k: int| 0 <= k < rest.len() implies #[trigger] rest[k] < 128 by {
            assert(rest[k] == bytes[k + 1]);
        }
        lemma_ascii_is_utf8(rest);
    }
}

/// A line made of `tag`, the decimal digits of `count` and a line end is
/// well-formed UTF-8.
proof fn lemma_counted_is_utf8(tag: u8, count: nat)
    requires
        tag < 128,
    ensures
        valid_utf8(seq![tag] + decimal(count) + crlf()),
{
    lemma_decimal_digits(count);
    let line = seq![tag] + decimal(count) + crlf();
    assert forall|k: int| 0 <= k < line.len() implies #[trigger] line[k] < 128 by {
        if 1 <= k < 1 + decimal(count).len() {
            assert(is_digit(decimal(count)[k - 1]));
        }
    }
    lemma_ascii_is_utf8(line);
}

/// The encoding of any bulk strings is well-formed UTF-8.
proof fn lemma_encoding_is_utf8(fields: Seq<Seq<char>>)
    ensures
        valid_utf8(encoding_of_all(bulk_strings(fields))),
    decreases fields.len(),
{
    let items = bulk_strings(fields);
    if fields.len() > 0 {
        let init = fields.drop_last();
        let text = encode_utf8(fields.last());
        lemma_encoding_is_utf8(init);
        assert(items.drop_last() =~= bulk_strings(init));
        assert(items.last() == RespView::BulkString(fields.last()));
        let header = seq![36u8] + decimal(text.len()) + crlf();
        lemma_counted_is_utf8(36, text.len());
        encode_utf8_valid_utf8(fields.last());
        lemma_ascii_is_utf8(crlf());
        valid_utf8_concat(header, text);
        valid_utf8_concat(header + text, crlf());
        assert(items.last().encoding() =~= header + text + crlf());
        valid_utf8_concat(encoding_of_all(items.drop_last()), items.last().encoding());
    }
}

/// Encodings follow one another in the order of their values.
proof fn lemma_encoding_from_the_front(first: RespView, rest: Seq<RespView>)
    ensures
        encoding_of_all(seq![first] + rest) == first.encoding() + encoding_of_all(rest),
    decreases rest.len(),
{
    let all = seq![first] + rest;
    if rest.len() == 0 {
        assert(all.drop_last() =~= Seq::<RespView>::empty());
        assert(all.last() == first);
        assert(encoding_of_all(all.drop_last()) =~= Seq::<u8>::empty());
        assert(encoding_of_all(rest) =~= Seq::<u8>::empty());
        assert(encoding_of_all(all) =~= first.encoding() + encoding_of_all(rest));
    } else {
        lemma_encoding_from_the_front(first, rest.drop_last());
        assert(all.drop_last() =~= seq![first] + rest.drop_last());
        assert(all.last() == rest.last());
        assert(encoding_of_all(all) =~= first.encoding() + encoding_of_all(rest));
    }
}

/// A bulk string is read back where it was written, whatever stands
/// before and behind it.
proof fn lemma_bulk_string_decodes(head: Seq<u8>, text: Seq<char>, tail: Seq<u8>)
    requires
        encode_utf8(text).len() <= usize::MAX,
    ensures
        bulk_string_at(head + RespView::BulkString(text).encoding() + tail, head.len() as int)
            matches Ok(found) && found.0 == text && found.1 == head.len()
            + RespView::BulkString(text).encoding().len(),
{
    let bytes = encode_utf8(text);
    let size = bytes.len() as int;
    let digits = decimal(size as nat);
    let encoding = RespView::BulkString(text).encoding();
    let input = head + encoding + tail;
    let at = head.len() as int;
    let width = digits.len() as int;
    let end = at + 1 + width;
    assert(encoding =~= seq![36u8] + digits + crlf() + bytes + crlf());
    assert(input[at] == encoding[0]);
    assert(input.subrange(at + 1, end) =~= digits);
    assert(line_end_at(input, end)) by {
        assert(input[end] == encoding[1 + width]);
        assert(input[end + 1] == encoding[2 + width]);
    }
    lemma_line_end_behind_number(input, at + 1, size as nat);
    lemma_decimal_round_trip(size as nat, usize::MAX as nat);
    let start = end + 2;
    let stop = start + size;
    assert(line_end_at(input, stop)) by {
        assert(input[stop] == encoding[3 + width + size]);
        assert(input[stop + 1] == encoding[4 + width + size]);
    }
    assert(input.subrange(start, stop) =~= bytes);
    encode_utf8_decode_utf8(text);
}

/// Bulk strings are read back where they were written, whatever stands
/// before and behind them.
proof fn lemma_elements_decode(head: Seq<u8>, fields: Seq<Seq<char>>, tail: Seq<u8>)
    requires
        forall|i: int| 0 <= i < fields.len() ==> encode_utf8(#[trigger] fields[i]).len() <= usize::MAX,
    ensures
        elements(head + encoding_of_all(bulk_strings(fields)) + tail, head.len() as int, fields.len())
            matches Ok(items) && items == bulk_strings(fields),
    decreases fields.len(),
{
    let items = bulk_strings(fields);
    let input = head + encoding_of_all(items) + tail;
    if fields.len() > 0 {
        let first = RespView::BulkString(fields[0]);
        let rest = fields.skip(1);
        assert(items =~= seq![first] + bulk_strings(rest));
        lemma_encoding_from_the_front(first, bulk_strings(rest));
        let behind = encoding_of_all(bulk_strings(rest));
        assert(input =~= head + first.encoding() + (behind + tail));
        lemma_bulk_string_decodes(head, fields[0], behind + tail);
        assert forall|i: int| 0 <= i < rest.len() implies encode_utf8(#[trigger] rest[i]).len()
            <= usize::MAX by {
            assert(rest[i] == fields[i + 1]);
        }
        lemma_elements_decode(head + first.encoding(), rest, tail);
        assert(input =~= (head + first.encoding()) + behind + tail);
        let next = head.len() + first.encoding().len();
        assert(elements(input, next as int, rest.len()) matches Ok(more) && more == bulk_strings(rest));
        assert(preceded(seq![first], elements(input, next as int, rest.len())) matches Ok(read) && read
            == items);
    } else {
        assert(items =~= Seq::<RespView>::empty());
    }
}

/// A request survives the wire. Encode an array of bulk strings, and
/// decoding the bytes gives back that array: the same number of fields,
/// the same texts, in the same order, whatever the texts hold. The number
/// of fields and the number of bytes of each text have to be numbers that
/// the machine can hold.
pub proof fn lemma_request_round_trip(fields: Seq<Seq<char>>)
    requires
        fields.len() <= usize::MAX,
        forall|i: int| 0 <= i < fields.len() ==> encode_utf8(#[trigger] fields[i]).len() <= usize::MAX,
    ensures
        decoded(request(fields).encoding()) matches Ok(Some(resp)) && resp == request(fields),
{
    let count = fields.len();
    let digits = decimal(count);
    let head = seq![42u8] + digits + crlf();
    let body = encoding_of_all(bulk_strings(fields));
    let input = request(fields).encoding();
    let end = 1 + digits.len() as int;
    assert(bulk_strings(fields).len() == count);
    assert(input =~= head + body);
    assert(input[0] == 42);
    assert(valid_utf8(input)) by {
        lemma_counted_is_utf8(42, count);
        lemma_encoding_is_utf8(fields);
        valid_utf8_concat(head, body);
    }
    assert(input.subrange(1, end) =~= digits);
    assert(line_end_at(input, end));
    lemma_line_end_behind_number(input, 1, count);
    lemma_decimal_round_trip(count, usize::MAX as nat);
    lemma_elements_decode(head, fields, Seq::empty());
    assert(head + body + Seq::<u8>::empty() =~= input);
}

} // verus!
