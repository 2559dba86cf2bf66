//! The wire codec: replies to bytes, bytes to requests.

use vstd::prelude::*;
use vstd::utf8::*;
use crate::error::{Error, ErrorView};
use vstd::slice::slice_subrange;
use crate::text::{decimal, parse_decimal, parse_usize, push_all, push_decimal, text_from_utf8};

verus! {

/// A protocol value.
#[derive(Debug, PartialEq, Eq)]
pub enum Resp {
    SimpleString(String),
    Error(String),
    BulkString(String),
    Array(Vec<Resp>),
    Null,
}

/// The mathematical model of a [`Resp`].
pub enum RespView {
    SimpleString(Seq<char>),
    Error(Seq<char>),
    BulkString(Seq<char>),
    Array(Seq<RespView>),
    Null,
}

impl View for Resp {
    type V = RespView;

    open spec fn view(&self) -> RespView
        decreases self,
    {
        match self {
            Resp::SimpleString(s) => RespView::SimpleString(s@),
            Resp::Error(s) => RespView::Error(s@),
            Resp::BulkString(s) => RespView::BulkString(s@),
            Resp::Array(items) => RespView::Array(
                Seq::new(items.len() as nat, |i: int| if 0 <= i < items.len() { items[i].view() } else { RespView::Null }),
            ),
            Resp::Null => RespView::Null,
        }
    }
}

impl Clone for Resp {
    fn clone(&self) -> (copy: Resp)
        ensures
            copy@ == self@,
    {
        self.duplicate()
    }
}

/// The models of `items`, in order.
pub open spec fn views_of(items: Seq<Resp>) -> Seq<RespView> {
    Seq::new(items.len(), |i: int| items[i]@)
}

/// An array's model holds the models of its elements.
pub proof fn lemma_array_view(items: Vec<Resp>)
    ensures
        Resp::Array(items)@ == RespView::Array(views_of(items@)),
{
    assert(Resp::Array(items)@->Array_0 =~= views_of(items@));
}

/// The two bytes that end every protocol line: carriage return, line feed.
pub open spec fn crlf() -> Seq<u8> {
    seq![13u8, 10u8]
}

impl RespView {
    /// The bytes that stand for the value on the wire.
    ///
    /// A simple string is `+`, its text and a line end; an error is the
    /// same with `-`. A bulk string is `$`, the number of bytes of its
    /// text in decimal, a line end, the text, and a line end. The null
    /// value is `$-1` and a line end. An array is `*`, the number of its
    /// elements in decimal, a line end, and then each element in order.
    pub open spec fn encoding(self) -> Seq<u8>
        decreases self,
    {
        match self {
            RespView::SimpleString(s) => seq![43u8] + encode_utf8(s) + crlf(),
            RespView::Error(s) => seq![45u8] + encode_utf8(s) + crlf(),
            RespView::BulkString(s) => seq![36u8] + decimal(encode_utf8(s).len()) + crlf()
                + encode_utf8(s) + crlf(),
            RespView::Array(items) => seq![42u8] + decimal(items.len()) + crlf() + encoding_of_all(
                items,
            ),
            RespView::Null => seq![36u8, 45u8, 49u8, 13u8, 10u8],
        }
    }
}

/// The encodings of `items`, one after the other.
pub open spec fn encoding_of_all(items: Seq<RespView>) -> Seq<u8>
    decreases items,
{
    if items.len() == 0 {
        Seq::empty()
    } else {
        encoding_of_all(items.drop_last()) + items.last().encoding()
    }
}

/// Whether a line end stands at `i` in `bytes`: a carriage return that a
/// line feed follows.
pub open spec fn line_end_at(bytes: Seq<u8>, i: int) -> bool {
    0 <= i && i + 1 < bytes.len() && bytes[i] == 13 && bytes[i + 1] == 10
}

/// The index of the first line end in `bytes`. Without one it is the
/// length of `bytes`.
pub open spec fn first_line_end(bytes: Seq<u8>) -> int
    decreases bytes.len(),
{
    if bytes.len() < 2 {
        bytes.len() as int
    } else if bytes[0] == 13 && bytes[1] == 10 {
        0
    } else {
        1 + first_line_end(bytes.skip(1))
    }
}

/// The index of the first line end of `bytes` at or behind `from`.
/// Without one it is the length of `bytes`.
pub open spec fn line_end_from(bytes: Seq<u8>, from: int) -> int {
    from + first_line_end(bytes.skip(from))
}

/// A protocol error with the given description.
pub open spec fn malformed(description: Seq<char>) -> ErrorView {
    ErrorView::Protocol(description)
}

/// The bulk string that stands at `at` in `input`, and the index behind it.
///
/// A bulk string is `$`, the number of bytes of its text in decimal, a
/// line end, exactly that many bytes of text, and a line end. The text may
/// hold any bytes, line ends too: only the announced length says where it
/// stops. A header that is cut short, a length without a value, a text
/// of which bytes are missing, and a text that no line end follows are
/// all refused.
pub open spec fn bulk_string_at(input: Seq<u8>, at: int) -> Result<(Seq<char>, int), ErrorView> {
    if at >= input.len() {
        Err(malformed("Incomplete array"@))
    } else if input[at] != 36 {
        Err(malformed("Invalid array element"@))
    } else {
        let end = line_end_from(input, at + 1);
        if end >= input.len() {
            Err(malformed("Incomplete bulk string"@))
        } else {
            match parse_decimal(input.subrange(at + 1, end), usize::MAX as nat) {
                None => Err(malformed("Invalid bulk string length"@)),
                Some(size) => {
                    let start = end + 2;
                    let stop = start + size;
                    if input.len() - start < size + 2 {
                        Err(malformed("Incomplete bulk string"@))
                    } else if !line_end_at(input, stop) {
                        Err(malformed("Invalid bulk string length"@))
                    } else {
                        Ok((decode_utf8(input.subrange(start, stop)), stop + 2))
                    }
                },
            }
        }
    }
}

/// `items` followed by what `rest` holds, or the error of `rest`.
pub open spec fn preceded(items: Seq<RespView>, rest: Result<Seq<RespView>, ErrorView>) -> Result<
    Seq<RespView>,
    ErrorView,
> {
    match rest {
        Ok(more) => Ok(items + more),
        Err(e) => Err(e),
    }
}

/// The `count` bulk strings that stand one after the other from `at` on in `input`.
pub open spec fn elements(input: Seq<u8>, at: int, count: nat) -> Result<Seq<RespView>, ErrorView>
    decreases count,
{
    if count == 0 {
        Ok(Seq::empty())
    } else {
        match bulk_string_at(input, at) {
            Err(e) => Err(e),
            Ok((text, next)) => preceded(
                seq![RespView::BulkString(text)],
                elements(input, next, (count - 1) as nat),
            ),
        }
    }
}

/// The request that `input` holds.
///
/// An empty input holds none. Any other input has to be well-formed UTF-8
/// and begin with an array of bulk strings: `*`, the number of elements in
/// decimal, a line end, and then that many bulk strings. What follows the
/// last element is not looked at any further.
pub open spec fn decoded(input: Seq<u8>) -> Result<Option<RespView>, ErrorView> {
    if input.len() == 0 {
        Ok(None)
    } else if input[0] != 42 {
        Err(malformed("Unsupported RESP type"@))
    } else if !valid_utf8(input) {
        Err(malformed("Invalid UTF-8"@))
    } else {
        let end = line_end_from(input, 1);
        if end >= input.len() {
            Err(malformed("Incomplete array"@))
        } else {
            match parse_decimal(input.subrange(1, end), usize::MAX as nat) {
                None => Err(malformed("Invalid array length"@)),
                Some(count) => match elements(input, end + 2, count) {
                    Ok(items) => Ok(Some(RespView::Array(items))),
                    Err(e) => Err(e),
                },
            }
        }
    }
}

/// The model of what decoding returns.
pub open spec fn decoded_view(r: Result<Option<Resp>, Error>) -> Result<Option<RespView>, ErrorView> {
    match r {
        Ok(Some(resp)) => Ok(Some(resp@)),
        Ok(None) => Ok(None),
        Err(e) => Err(e@),
    }
}

impl Resp {
    /// The bytes that stand for the value on the wire.
    pub fn into_bytes(self) -> (bytes: Vec<u8>)
        ensures
            bytes@ == self@.encoding(),
    {
        let mut bytes: Vec<u8> = Vec::new();
        self.encode_into(&mut bytes);
        assert(bytes@ =~= self@.encoding());
        bytes
    }

    /// Appends the encoding of the value to `out`.
    pub fn encode_into(&self, out: &mut Vec<u8>)
        ensures
            final(out)@ == old(out)@ + self@.encoding(),
        decreases self,
    {
        match self {
            Resp::SimpleString(s) => {
                push_line(out, 43u8, s.as_str().as_bytes());
            },
            Resp::Error(s) => {
                push_line(out, 45u8, s.as_str().as_bytes());
            },
            Resp::BulkString(s) => {
                let bytes = s.as_str().as_bytes();
                push_count(out, 36u8, bytes.len());
                push_all(out, bytes);
                push_all(out, &[13u8, 10u8]);
                assert(out@ =~= old(out)@ + self@.encoding());
            },
            Resp::Array(items) => {
                push_count(out, 42u8, items.len());
                let ghost head = out@;
                let ghost views = self@->Array_0;
                let mut i: usize = 0;
                while i < items.len()
                    invariant
                        0 <= i <= items.len(),
                        self == Resp::Array(*items),
                        views == self@->Array_0,
                        views.len() == items.len(),
                        out@ == head + encoding_of_all(views.take(i as int)),
                    decreases items.len() - i,
                {
                    items[i].encode_into(out);
                    proof {
                        let longer = views.take(i + 1);
                        assert(longer.drop_last() =~= views.take(i as int));
                        assert(longer.last() == items[i as int]@);
                    }
                    i = i + 1;
                }
                assert(views.take(i as int) =~= views);
                assert(out@ =~= old(out)@ + self@.encoding());
            },
            Resp::Null => {
                push_all(out, &[36u8, 45u8, 49u8, 13u8, 10u8]);
            },
        }
    }

    /// Decodes at most one request from `input`; see [`decoded`].
    pub fn parse(input: &[u8]) -> (r: Result<Option<Resp>, Error>)
        ensures
            decoded_view(r) == decoded(input@),
    {
        if input.len() == 0 {
            return Ok(None);
        }
        if input[0] != 42 {
            return Err(Error::protocol("Unsupported RESP type"));
        }
        if text_from_utf8(input).is_none() {
            return Err(Error::protocol("Invalid UTF-8"));
        }
        let end = find_line_end(input, 1);
        if end >= input.len() {
            return Err(Error::protocol("Incomplete array"));
        }
        let count = match parse_usize(slice_subrange(input, 1, end)) {
            Some(count) => count,
            None => {
                return Err(Error::protocol("Invalid array length"));
            },
        };
        let first = end + 2;
        let mut items: Vec<Resp> = Vec::new();
        let mut at: usize = first;
        let mut done: usize = 0;
        assert(preceded(views_of(items@), elements(input@, at as int, count as nat)) == elements(
            input@,
            first as int,
            count as nat,
        )) by {
            lemma_preceded_by_nothing(elements(input@, first as int, count as nat));
            assert(views_of(items@) =~= Seq::<RespView>::empty());
        }
        while done < count
            invariant
                0 <= done <= count,
                at <= input.len(),
                at == 0 || input@[at - 1] == 10,
                input@.len() > 0,
                input@[0] == 42,
                valid_utf8(input@),
                end == line_end_from(input@, 1),
                end < input.len(),
                first == end + 2,
                parse_decimal(input@.subrange(1, end as int), usize::MAX as nat) == Some(count as nat),
                elements(input@, first as int, count as nat) == preceded(
                    views_of(items@),
                    elements(input@, at as int, (count - done) as nat),
                ),
            ensures
                done == count,
                elements(input@, first as int, count as nat) matches Ok(read) && read == views_of(items@),
            decreases count - done,
        {
            let (text, next) = match Resp::bulk_string(input, at) {
                Ok(found) => found,
                Err(e) => {
                    return Err(e);
                },
            };
            proof {
                let before = views_of(items@);
                let item = RespView::BulkString(text@);
                let rest = elements(input@, next as int, (count - done - 1) as nat);
                assert(preceded(before, preceded(seq![item], rest)) == preceded(before.push(item), rest)) by {
                    if rest is Ok {
                        assert(before + (seq![item] + rest->Ok_0) =~= before.push(item) + rest->Ok_0);
                    }
                }
                assert(views_of(items@.push(Resp::BulkString(text))) =~= before.push(item));
            }
            items.push(Resp::BulkString(text));
            at = next;
            done = done + 1;
        }
        proof {
            lemma_array_view(items);
        }
        Ok(Some(Resp::Array(items)))
    }

    /// The text of the bulk string that stands at `at` in `input`, and the
    /// index behind it; see [`bulk_string_at`].
    fn bulk_string(input: &[u8], at: usize) -> (r: Result<(String, usize), Error>)
        requires
            valid_utf8(input@),
            at <= input.len(),
            at == 0 || input@[at - 1] == 10,
        ensures
            match r {
                Ok((text, next)) => bulk_string_at(input@, at as int) matches Ok(found) && found.0 == text@
                    && found.1 == next && at < next <= input.len() && input@[next - 1] == 10,
                Err(e) => bulk_string_at(input@, at as int) matches Err(same) && same == e@,
            },
    {
        if at >= input.len() {
            return Err(Error::protocol("Incomplete array"));
        }
        if input[at] != 36 {
            return Err(Error::protocol("Invalid array element"));
        }
        let end = find_line_end(input, at + 1);
        if end >= input.len() {
            return Err(Error::protocol("Incomplete bulk string"));
        }
        let size = match parse_usize(slice_subrange(input, at + 1, end)) {
            Some(size) => size,
            None => {
                return Err(Error::protocol("Invalid bulk string length"));
            },
        };
        let start = end + 2;
        if input.len() - start < size || input.len() - start - size < 2 {
            return Err(Error::protocol("Incomplete bulk string"));
        }
        let stop = start + size;
        if input[stop] != 13 || input[stop + 1] != 10 {
            return Err(Error::protocol("Invalid bulk string length"));
        }
        proof {
            lemma_line_is_utf8(input@, start as int, stop as int);
        }
        match text_from_utf8(slice_subrange(input, start, stop)) {
            Some(text) => Ok((text, stop + 2)),
            None => Err(Error::protocol("Invalid UTF-8")),
        }
    }

    /// A copy of the value.
    fn duplicate(&self) -> (copy: Resp)
        ensures
            copy@ == self@,
        decreases self,
    {
        match self {
            Resp::SimpleString(s) => Resp::SimpleString(s.clone()),
            Resp::Error(s) => Resp::Error(s.clone()),
            Resp::BulkString(s) => Resp::BulkString(s.clone()),
            Resp::Array(items) => {
                let mut copies: Vec<Resp> = Vec::new();
                let mut i: usize = 0;
                while i < items.len()
                    invariant
                        0 <= i <= items.len(),
                        self matches Resp::Array(all) && all == *items,
                        copies.len() == i,
                        forall|k: int| 0 <= k < i ==> (#[trigger] copies[k])@ == items[k]@,
                    decreases items.len() - i,
                {
                    copies.push(items[i].duplicate());
                    i = i + 1;
                }
                assert(Resp::Array(copies)@->Array_0 =~= self@->Array_0);
                Resp::Array(copies)
            },
            Resp::Null => Resp::Null,
        }
    }
}

/// Appends a line made of `tag` and `text`.
fn push_line(out: &mut Vec<u8>, tag: u8, text: &[u8])
    ensures
        final(out)@ == old(out)@ + (seq![tag] + text@ + crlf()),
{
    out.push(tag);
    push_all(out, text);
    out.push(13u8);
    out.push(10u8);
    assert(out@ =~= old(out)@ + (seq![tag] + text@ + crlf()));
}

/// Appends a line made of `tag` and the decimal digits of `count`.
fn push_count(out: &mut Vec<u8>, tag: u8, count: usize)
    ensures
        final(out)@ == old(out)@ + (seq![tag] + decimal(count as nat) + crlf()),
{
    out.push(tag);
    push_decimal(out, count);
    out.push(13u8);
    out.push(10u8);
    assert(out@ =~= old(out)@ + (seq![tag] + decimal(count as nat) + crlf()));
}

/// Whether `from..to` is cut out of `bytes` between single-byte
/// characters: it begins at the start or behind a line feed, and ends at
/// the end or before a carriage return.
spec fn line_range(bytes: Seq<u8>, from: int, to: int) -> bool {
    &&& 0 <= from <= to <= bytes.len()
    &&& from == 0 || bytes[from - 1] == 10
    &&& to == bytes.len() || bytes[to] == 13
}

/// The first line end is the one that no other stands before.
pub proof fn lemma_first_line_end_found(bytes: Seq<u8>, n: int)
    requires
        line_end_at(bytes, n),
        forall|k: int| 0 <= k < n ==> !line_end_at(bytes, k),
    ensures
        first_line_end(bytes) == n,
    decreases n,
{
    if n > 0 {
        assert(!line_end_at(bytes, 0));
        let rest = bytes.skip(1);
        assert(line_end_at(rest, n - 1));
        assert forall|k: int| 0 <= k < n - 1 implies !line_end_at(rest, k) by {
            assert(!line_end_at(bytes, k + 1));
        }
        lemma_first_line_end_found(rest, n - 1);
    }
}

/// Bytes without a line end are one line.
pub proof fn lemma_first_line_end_missing(bytes: Seq<u8>)
    requires
        forall|k: int| 0 <= k < bytes.len() ==> !line_end_at(bytes, k),
    ensures
        first_line_end(bytes) == bytes.len(),
    decreases bytes.len(),
{
    if bytes.len() >= 2 {
        assert(!line_end_at(bytes, 0));
        let rest = bytes.skip(1);
        assert forall|k: int| 0 <= k < rest.len() implies !line_end_at(rest, k) by {
            assert(!line_end_at(bytes, k + 1));
        }
        lemma_first_line_end_missing(rest);
    }
}

/// Nothing in front changes nothing.
proof fn lemma_preceded_by_nothing(rest: Result<Seq<RespView>, ErrorView>)
    ensures
        preceded(Seq::empty(), rest) == rest,
{
    if rest is Ok {
        assert(Seq::<RespView>::empty() + rest->Ok_0 =~= rest->Ok_0);
    }
}

/// The index of the first line end of `input` at or behind `from`.
fn find_line_end(input: &[u8], from: usize) -> (end: usize)
    requires
        from <= input.len(),
    ensures
        end == line_end_from(input@, from as int),
        from <= end <= input.len(),
        end < input.len() ==> line_end_at(input@, end as int),
{
    let ghost rest = input@.skip(from as int);
    let mut i: usize = from;
    while i < input.len() && i + 1 < input.len()
        invariant
            from <= i <= input.len(),
            rest == input@.skip(from as int),
            forall|k: int| from <= k < i ==> !line_end_at(input@, k),
        decreases input.len() - i,
    {
        if input[i] == 13 && input[i + 1] == 10 {
            proof {
                assert(line_end_at(rest, i - from));
                assert forall|k: int| 0 <= k < i - from implies !line_end_at(rest, k) by {
                    assert(!line_end_at(input@, from + k));
                }
                lemma_first_line_end_found(rest, i - from);
            }
            return i;
        }
        i = i + 1;
    }
    proof {
        assert forall|k: int| 0 <= k < rest.len() implies !line_end_at(rest, k) by {
            assert(!line_end_at(input@, from + k));
        }
        lemma_first_line_end_missing(rest);
    }
    input.len()
}

/// What is cut out of well-formed UTF-8 between a line feed and a
/// carriage return is well-formed UTF-8.
proof fn lemma_line_is_utf8(bytes: Seq<u8>, from: int, to: int)
    requires
        valid_utf8(bytes),
        line_range(bytes, from, to),
    ensures
        valid_utf8(bytes.subrange(from, to)),
{
    let rest = bytes.subrange(from, bytes.len() as int);
    assert(valid_utf8(rest)) by {
        if from == 0 {
            assert(rest =~= bytes);
        } else {
            is_char_boundary_iff_not_is_continuation_byte(bytes, from - 1);
            valid_utf8_split(bytes, from - 1);
            let tail = bytes.subrange(from - 1, bytes.len() as int);
            assert(tail[0] == 10);
            assert(pop_first_scalar(tail) =~= rest);
        }
    }
    if to == bytes.len() {
        assert(bytes.subrange(from, to) =~= rest);
    } else {
        assert(rest[to - from] == 13);
        is_char_boundary_iff_not_is_continuation_byte(rest, to - from);
        valid_utf8_split(rest, to - from);
        assert(rest.subrange(0, to - from) =~= bytes.subrange(from, to));
    }
}

} // verus!
