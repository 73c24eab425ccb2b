//! The `[sx-aes-1]` exchange envelope: a header line followed by lines of
//! the form `key=base64(value)`.

use base64::prelude::{Engine, BASE64_STANDARD};
use vstd::prelude::*;
use vstd::slice::slice_subrange;

use crate::key::Secret;
use crate::text::{chars_of, find_char, starts_with, string_of};

verus! {

/// The header that every envelope starts with.
pub const PROTOCOL: &'static str = "[sx-aes-1]\n";

/// The field keys of the exchange.
pub const SECRET: &'static str = "secret";

pub const PUBLIC: &'static str = "public";

pub const PRIVATE: &'static str = "private";

pub const IV: &'static str = "iv";

/// The characters of the header.
pub open spec fn protocol_header() -> Seq<char> {
    seq!['[', 's', 'x', '-', 'a', 'e', 's', '-', '1', ']', '\n']
}

/// The standard base64 text of `bytes`, with padding, as the `STANDARD`
/// engine of the `base64` crate encodes it.
pub uninterp spec fn base64_text(bytes: Seq<u8>) -> Seq<char>;

/// The bytes that the `STANDARD` engine of the `base64` crate decodes from
/// `text`, or `None` where it rejects the text.
pub uninterp spec fn base64_decoded(text: Seq<char>) -> Option<Seq<u8>>;

/// Trusted: `Engine::encode` of `base64::prelude::BASE64_STANDARD`. It
/// returns the standard base64 text of `bytes`, with padding. That text
/// holds letters, digits, `+`, `/` and `=` only, so no line break, and the
/// same engine decodes it to `bytes` again.
#[verifier::external_body]
fn base64_encode(bytes: &[u8]) -> (text: String)
    ensures
        text@ == base64_text(bytes@),
        base64_decoded(text@) == Some(bytes@),
        forall|i: int| 0 <= i < text@.len() ==> text@[i] != '\n',
{
    BASE64_STANDARD.encode(bytes)
}

/// Trusted: `Engine::decode` of `base64::prelude::BASE64_STANDARD` on the
/// characters of `text`. It returns the decoded bytes, or `None` where the
/// engine rejects the text.
#[verifier::external_body]
fn base64_decode(text: &[char]) -> (bytes: Option<Vec<u8>>)
    ensures
        match bytes {
            Some(decoded) => base64_decoded(text@) == Some(decoded@),
            None => base64_decoded(text@) is None,
        },
{
    let text: String = text.iter().collect();
    BASE64_STANDARD.decode(text).ok()
}

/// One field of a payload: a key and the bytes that belong to it.
struct Entry {
    key: String,
    value: Secret,
}

/// A mapping from field keys to byte strings. No key occurs twice; the
/// values are wiped when the payload is dropped.
pub struct ExchangePayload {
    entries: Vec<Entry>,
}

/// The mapping that a list of fields stands for: of two fields with one key
/// the later one counts.
pub open spec fn fields_map(fields: Seq<(Seq<char>, Seq<u8>)>) -> Map<Seq<char>, Seq<u8>>
    decreases fields.len(),
{
    if fields.len() == 0 {
        Map::empty()
    } else {
        fields_map(fields.drop_last()).insert(fields.last().0, fields.last().1)
    }
}

/// No key occurs twice in the list.
pub open spec fn distinct_keys(fields: Seq<(Seq<char>, Seq<u8>)>) -> bool {
    forall|i: int, j: int| 0 <= i < j < fields.len() ==> fields[i].0 != fields[j].0
}

/// A key is in the mapping of a list exactly if a field of the list has it.
pub proof fn lemma_fields_map_keys(fields: Seq<(Seq<char>, Seq<u8>)>, key: Seq<char>)
    ensures
        fields_map(fields).contains_key(key) <==> exists|i: int|
            0 <= i < fields.len() && #[trigger] fields[i].0 == key,
    decreases fields.len(),
{
    if fields.len() > 0 {
        let front = fields.drop_last();
        lemma_fields_map_keys(front, key);
        if fields_map(fields).contains_key(key) {
            if fields.last().0 == key {
                assert(fields[fields.len() - 1].0 == key);
            } else {
                let i = choose|i: int| 0 <= i < front.len() && #[trigger] front[i].0 == key;
                assert(fields[i].0 == key);
            }
        }
        if exists|i: int| 0 <= i < fields.len() && #[trigger] fields[i].0 == key {
            let i = choose|i: int| 0 <= i < fields.len() && #[trigger] fields[i].0 == key;
            if i < fields.len() - 1 {
                assert(front[i].0 == key);
            }
        }
    }
}

/// Field `i` is the last one with its key.
pub open spec fn is_last_with_key(fields: Seq<(Seq<char>, Seq<u8>)>, i: int) -> bool {
    &&& 0 <= i < fields.len()
    &&& forall|j: int| i < j < fields.len() ==> fields[j].0 != fields[i].0
}

/// The last field with a key is what the mapping holds for that key.
pub proof fn lemma_fields_map_value(fields: Seq<(Seq<char>, Seq<u8>)>, i: int)
    requires
        is_last_with_key(fields, i),
    ensures
        fields_map(fields).contains_key(fields[i].0),
        fields_map(fields)[fields[i].0] == fields[i].1,
    decreases fields.len(),
{
    let front = fields.drop_last();
    if i < fields.len() - 1 {
        assert(is_last_with_key(front, i)) by {
            assert forall|j: int| i < j < front.len() implies front[j].0 != front[i].0 by {
                assert(fields[j].0 != fields[i].0);
            }
        }
        lemma_fields_map_value(front, i);
        assert(fields[fields.len() - 1].0 != fields[i].0);
    }
}

/// Replacing the value of the last field with a key replaces it in the
/// mapping.
pub proof fn lemma_fields_map_update(
    fields: Seq<(Seq<char>, Seq<u8>)>,
    i: int,
    value: Seq<u8>,
)
    requires
        is_last_with_key(fields, i),
    ensures
        fields_map(fields.update(i, (fields[i].0, value))) == fields_map(fields).insert(
            fields[i].0,
            value,
        ),
    decreases fields.len(),
{
    let key = fields[i].0;
    let updated = fields.update(i, (key, value));
    let front = fields.drop_last();
    if i == fields.len() - 1 {
        assert(updated.drop_last() =~= front);
        assert(fields_map(updated) =~= fields_map(fields).insert(key, value));
    } else {
        assert(is_last_with_key(front, i)) by {
            assert forall|j: int| i < j < front.len() implies front[j].0 != front[i].0 by {
                assert(fields[j].0 != fields[i].0);
            }
        }
        lemma_fields_map_update(front, i, value);
        assert(updated.drop_last() =~= front.update(i, (key, value)));
        assert(updated.last() == fields.last());
        assert(fields[fields.len() - 1].0 != fields[i].0);
        assert(fields_map(updated) =~= fields_map(fields).insert(key, value));
    }
}

impl Entry {
    /// The field as a pair of plain values.
    spec fn field(&self) -> (Seq<char>, Seq<u8>) {
        (self.key@, self.value@)
    }
}

impl View for ExchangePayload {
    type V = Map<Seq<char>, Seq<u8>>;

    open spec fn view(&self) -> Map<Seq<char>, Seq<u8>> {
        fields_map(self.fields())
    }
}

impl ExchangePayload {
    /// The fields in the order in which they are emitted.
    pub closed spec fn fields(&self) -> Seq<(Seq<char>, Seq<u8>)> {
        Seq::new(self.entries@.len(), |i: int| self.entries@[i].field())
    }

    /// What holds of every payload that `new`, `insert` and `decode` make:
    /// no key occurs twice among the fields.
    pub open spec fn wf(&self) -> bool {
        distinct_keys(self.fields())
    }

    /// The place of the last field with the key `key`, if the payload has
    /// that key.
    pub open spec fn index_of(&self, key: Seq<char>) -> Option<int> {
        if exists|i: int| is_last_with_key(self.fields(), i) && self.fields()[i].0 == key {
            Some(choose|i: int| is_last_with_key(self.fields(), i) && self.fields()[i].0 == key)
        } else {
            None
        }
    }

    /// The payload without fields.
    pub fn new() -> (payload: ExchangePayload)
        ensures
            payload.wf(),
            payload@ == Map::<Seq<char>, Seq<u8>>::empty(),
            payload.fields() == Seq::<(Seq<char>, Seq<u8>)>::empty(),
    {
        let payload = ExchangePayload { entries: Vec::new() };
        assert(payload.fields() =~= Seq::<(Seq<char>, Seq<u8>)>::empty());
        payload
    }

    /// The number of fields.
    pub fn len(&self) -> (n: usize)
        ensures
            n == self.fields().len(),
    {
        self.entries.len()
    }

    /// The position of the last field with the given key among the fields.
    fn position(&self, key: &String) -> (found: Option<usize>)
        ensures
            match found {
                Some(i) => is_last_with_key(self.fields(), i as int) && self.fields()[i as int].0
                    == key@,
                None => forall|i: int| 0 <= i < self.fields().len() ==> self.fields()[i].0 != key@,
            },
            match found {
                Some(i) => self.index_of(key@) == Some(i as int),
                None => self.index_of(key@) is None,
            },
    {
        let mut i: usize = self.entries.len();
        while i > 0
            invariant
                i <= self.entries@.len(),
                forall|j: int| i <= j < self.fields().len() ==> self.fields()[j].0 != key@,
            decreases i,
        {
            i = i - 1;
            if self.entries[i].key == *key {
                assert(is_last_with_key(self.fields(), i as int));
                assert forall|j: int|
                    is_last_with_key(self.fields(), j) && self.fields()[j].0 == key@ implies j
                    == i by {
                    if j < i {
                        assert(self.fields()[i as int].0 == self.fields()[j].0);
                    }
                }
                return Some(i);
            }
        }
        None
    }

    /// The bytes that belong to `key`, if the payload has that key.
    pub fn get(&self, key: &str) -> (found: Option<&Secret>)
        ensures
            match found {
                Some(value) => self@.contains_key(key@) && self@[key@] == value@,
                None => !self@.contains_key(key@),
            },
    {
        let key = String::from_str(key);
        proof {
            lemma_fields_map_keys(self.fields(), key@);
        }
        match self.position(&key) {
            Some(i) => {
                proof {
                    lemma_fields_map_value(self.fields(), i as int);
                }
                Some(&self.entries[i].value)
            },
            None => None,
        }
    }

    /// Sets the bytes that belong to `key`. A key that the payload has
    /// already keeps its place among the fields; a new key goes to the end.
    pub fn insert(&mut self, key: &str, value: Vec<u8>)
        ensures
            old(self).wf() ==> final(self).wf(),
            final(self)@ == old(self)@.insert(key@, value@),
            match old(self).index_of(key@) {
                Some(i) => final(self).fields() == old(self).fields().update(i, (key@, value@)),
                None => final(self).fields() == old(self).fields().push((key@, value@)),
            },
    {
        let key = String::from_str(key);
        let ghost before = self.fields();
        let entry = Entry { key: key, value: Secret::new(value) };
        match self.position(&entry.key) {
            Some(i) => {
                proof {
                    lemma_fields_map_update(before, i as int, value@);
                }
                self.entries.set(i, entry);
                assert(self.fields() =~= before.update(i as int, (key@, value@)));
            },
            None => {
                self.entries.push(entry);
                assert(self.fields() =~= before.push((key@, value@)));
                assert(self.fields().drop_last() =~= before);
            },
        }
    }
}

/// Whether the text starts with the header.
pub open spec fn has_header(text: Seq<char>) -> bool {
    &&& text.len() >= protocol_header().len()
    &&& text.take(protocol_header().len() as int) == protocol_header()
}

/// The place of the last line break in the text, or -1 where it has none.
pub open spec fn last_line_break(text: Seq<char>) -> int
    decreases text.len(),
{
    if text.len() == 0 {
        -1
    } else if text.last() == '\n' {
        text.len() - 1
    } else {
        last_line_break(text.drop_last())
    }
}

/// The place of the first `=` in the line, or the length of the line where
/// it has none.
pub open spec fn first_equals(line: Seq<char>) -> int
    decreases line.len(),
{
    if line.len() == 0 {
        0
    } else if line[0] == '=' {
        0
    } else {
        1 + first_equals(line.drop_first())
    }
}

/// The field that a line holds: the key stands before the first `=`, the
/// base64 text of the value behind it. A line without `=`, with a value that
/// is no base64 text, or with an empty value holds none.
pub open spec fn line_field(line: Seq<char>) -> Option<(Seq<char>, Seq<u8>)> {
    let at = first_equals(line);
    if at >= line.len() {
        None
    } else {
        match base64_decoded(line.skip(at + 1)) {
            Some(value) => if value.len() > 0 {
                Some((line.take(at), value))
            } else {
                None
            },
            None => None,
        }
    }
}

/// The mapping after one more line: an empty line changes nothing, a line
/// with a field sets it, and any other line spoils the whole.
pub open spec fn apply_line(fields: Map<Seq<char>, Seq<u8>>, line: Seq<char>) -> Option<
    Map<Seq<char>, Seq<u8>>,
> {
    if line.len() == 0 {
        Some(fields)
    } else {
        match line_field(line) {
            Some((key, value)) => Some(fields.insert(key, value)),
            None => None,
        }
    }
}

/// The mapping that the lines of `body` stand for, taken in their order, or
/// `None` where one of them is malformed.
pub open spec fn parse_lines(body: Seq<char>) -> Option<Map<Seq<char>, Seq<u8>>>
    decreases body.len(),
{
    let at = last_line_break(body);
    if at < 0 || at >= body.len() {
        apply_line(Map::empty(), body)
    } else {
        match parse_lines(body.take(at)) {
            Some(fields) => apply_line(fields, body.skip(at + 1)),
            None => None,
        }
    }
}

/// The mapping that an envelope stands for, or `None` where the text does
/// not start with the header or a line is malformed.
pub open spec fn spec_decode(text: Seq<char>) -> Option<Map<Seq<char>, Seq<u8>>> {
    if has_header(text) {
        parse_lines(text.skip(protocol_header().len() as int))
    } else {
        None
    }
}

/// The line that a field is written as.
pub open spec fn line_of(field: (Seq<char>, Seq<u8>)) -> Seq<char> {
    field.0 + seq!['='] + base64_text(field.1)
}

/// The lines of the fields in their order, with a line break between two.
pub open spec fn joined_lines(fields: Seq<(Seq<char>, Seq<u8>)>) -> Seq<char>
    decreases fields.len(),
{
    if fields.len() == 0 {
        Seq::empty()
    } else if fields.len() == 1 {
        line_of(fields[0])
    } else {
        joined_lines(fields.drop_last()) + seq!['\n'] + line_of(fields.last())
    }
}

/// The envelope that the fields are written as: the header, then the lines.
pub open spec fn envelope_text(fields: Seq<(Seq<char>, Seq<u8>)>) -> Seq<char> {
    protocol_header() + joined_lines(fields)
}

/// A key that can be read back from a line: it holds no `=` and no line
/// break.
pub open spec fn clean_key(key: Seq<char>) -> bool {
    forall|i: int| 0 <= i < key.len() ==> key[i] != '=' && key[i] != '\n'
}

/// Fields that can be read back from an envelope: every key is clean and no
/// value is empty.
pub open spec fn encodable(fields: Seq<(Seq<char>, Seq<u8>)>) -> bool {
    forall|i: int|
        0 <= i < fields.len() ==> clean_key(#[trigger] fields[i].0) && fields[i].1.len() > 0
}

/// The base64 text of `value` holds no line break and decodes to `value`.
pub open spec fn base64_faithful(value: Seq<u8>) -> bool {
    &&& base64_decoded(base64_text(value)) == Some(value)
    &&& forall|i: int| 0 <= i < base64_text(value).len() ==> base64_text(value)[i] != '\n'
}

/// A place with a line break and none behind it is the place of the last
/// line break.
proof fn lemma_last_line_break(text: Seq<char>, at: int)
    requires
        -1 <= at < text.len(),
        at >= 0 ==> text[at] == '\n',
        forall|i: int| at < i < text.len() ==> text[i] != '\n',
    ensures
        last_line_break(text) == at,
    decreases text.len(),
{
    if text.len() > 0 && at < text.len() - 1 {
        lemma_last_line_break(text.drop_last(), at);
    }
}

/// The last line break is a line break, and no line break stands behind it.
proof fn lemma_last_line_break_is_last(text: Seq<char>)
    ensures
        -1 <= last_line_break(text) < text.len(),
        last_line_break(text) >= 0 ==> text[last_line_break(text)] == '\n',
        forall|i: int| last_line_break(text) < i < text.len() ==> text[i] != '\n',
    decreases text.len(),
{
    if text.len() > 0 && text.last() != '\n' {
        let front = text.drop_last();
        lemma_last_line_break_is_last(front);
        assert forall|i: int| last_line_break(text) < i < text.len() implies text[i] != '\n' by {
            if i < front.len() {
                assert(front[i] == text[i]);
            }
        }
    }
}

/// A place with an `=` or the end, and no `=` before it, is what
/// `first_equals` gives.
proof fn lemma_first_equals(line: Seq<char>, at: int)
    requires
        0 <= at <= line.len(),
        at < line.len() ==> line[at] == '=',
        forall|i: int| 0 <= i < at ==> line[i] != '=',
    ensures
        first_equals(line) == at,
    decreases line.len(),
{
    if at > 0 {
        lemma_first_equals(line.drop_first(), at - 1);
    }
}

/// Reading up to the end of a line: the mapping is that of the lines before
/// it with this line applied.
proof fn lemma_parse_one_more_line(
    body: Seq<char>,
    start: int,
    end: int,
    fields: Map<Seq<char>, Seq<u8>>,
)
    requires
        0 <= start <= end <= body.len(),
        forall|i: int| start <= i < end ==> body[i] != '\n',
        start == 0 ==> fields == Map::<Seq<char>, Seq<u8>>::empty(),
        start > 0 ==> body[start - 1] == '\n' && parse_lines(body.take(start - 1)) == Some(fields),
    ensures
        parse_lines(body.take(end)) == apply_line(fields, body.subrange(start, end)),
{
    let prefix = body.take(end);
    lemma_last_line_break(prefix, start - 1);
    if start == 0 {
        assert(prefix =~= body.subrange(start, end));
    } else {
        assert(prefix.take(start - 1) =~= body.take(start - 1));
        assert(prefix.skip(start) =~= body.subrange(start, end));
    }
}

/// A malformed line spoils the whole: where the lines up to a line break do
/// not parse, the body does not parse.
proof fn lemma_malformed_prefix(body: Seq<char>, end: int)
    requires
        0 <= end <= body.len(),
        end < body.len() ==> body[end] == '\n',
        parse_lines(body.take(end)) is None,
    ensures
        parse_lines(body) is None,
    decreases body.len(),
{
    if end == body.len() {
        assert(body.take(end) =~= body);
    } else {
        lemma_last_line_break_is_last(body);
        let at = last_line_break(body);
        assert(at >= end);
        if at > end {
            let prefix = body.take(at);
            assert(prefix.take(end) =~= body.take(end));
            lemma_malformed_prefix(prefix, end);
        }
    }
}

/// The lines of encodable fields, each with a faithful base64 text, parse
/// to the mapping of the fields.
proof fn lemma_parse_joined_lines(fields: Seq<(Seq<char>, Seq<u8>)>)
    requires
        encodable(fields),
        forall|i: int| 0 <= i < fields.len() ==> base64_faithful(#[trigger] fields[i].1),
    ensures
        parse_lines(joined_lines(fields)) == Some(fields_map(fields)),
    decreases fields.len(),
{
    let text = joined_lines(fields);
    if fields.len() == 0 {
        assert(fields_map(fields) =~= Map::<Seq<char>, Seq<u8>>::empty());
    } else {
        let last = fields.last();
        let line = line_of(last);
        assert(clean_key(last.0) && last.1.len() > 0);
        assert(base64_faithful(last.1));
        lemma_first_equals(line, last.0.len() as int);
        assert(line.skip(last.0.len() as int + 1) =~= base64_text(last.1));
        assert(line.take(last.0.len() as int) =~= last.0);
        assert(line_field(line) == Some(last));
        assert(line.len() > 0);
        assert(forall|i: int| 0 <= i < line.len() ==> line[i] != '\n');
        if fields.len() == 1 {
            assert(fields.drop_last() =~= Seq::<(Seq<char>, Seq<u8>)>::empty());
            assert(fields_map(fields.drop_last()) =~= Map::<Seq<char>, Seq<u8>>::empty());
            lemma_last_line_break(text, -1);
        } else {
            let front = fields.drop_last();
            assert(encodable(front)) by {
                assert forall|i: int| 0 <= i < front.len() implies clean_key(
                    #[trigger] front[i].0,
                ) && front[i].1.len() > 0 by {
                    assert(front[i] == fields[i]);
                    assert(clean_key(fields[i].0));
                }
            }
            assert forall|i: int| 0 <= i < front.len() implies base64_faithful(
                #[trigger] front[i].1,
            ) by {
                assert(front[i] == fields[i]);
                assert(base64_faithful(fields[i].1));
            }
            lemma_parse_joined_lines(front);
            let at = joined_lines(front).len() as int;
            lemma_last_line_break(text, at);
            assert(text.take(at) =~= joined_lines(front));
            assert(text.skip(at + 1) =~= line);
        }
    }
}

/// Decoding undoes encoding: the envelope of encodable fields, each with a
/// faithful base64 text, decodes to the mapping of the fields.
pub proof fn lemma_decode_inverts_encode(fields: Seq<(Seq<char>, Seq<u8>)>)
    requires
        encodable(fields),
        forall|i: int| 0 <= i < fields.len() ==> base64_faithful(#[trigger] fields[i].1),
    ensures
        spec_decode(envelope_text(fields)) == Some(fields_map(fields)),
{
    let text = envelope_text(fields);
    lemma_parse_joined_lines(fields);
    assert(text.take(protocol_header().len() as int) =~= protocol_header());
    assert(text.skip(protocol_header().len() as int) =~= joined_lines(fields));
}

/// The characters of the header constant are those of `protocol_header`.
pub proof fn lemma_protocol_text()
    ensures
        PROTOCOL@ == protocol_header(),
        protocol_header().len() == 11,
{
    reveal_strlit("[sx-aes-1]\n");
    assert(PROTOCOL@ =~= protocol_header());
}

/// Reads the lines behind the header.
fn parse_body(body: &[char]) -> (result: Option<ExchangePayload>)
    ensures
        match result {
            Some(payload) => payload.wf() && parse_lines(body@) == Some(payload@),
            None => parse_lines(body@) is None,
        },
{
    let mut payload = ExchangePayload::new();
    let mut start: usize = 0;
    loop
        invariant
            start <= body@.len(),
            payload.wf(),
            start == 0 ==> payload@ == Map::<Seq<char>, Seq<u8>>::empty(),
            start > 0 ==> body@[start - 1] == '\n' && parse_lines(body@.take(start - 1)) == Some(
                payload@,
            ),
        decreases body@.len() - start,
    {
        let end = find_char(body, start, body.len(), '\n');
        let ghost line = body@.subrange(start as int, end as int);
        proof {
            lemma_parse_one_more_line(body@, start as int, end as int, payload@);
        }
        if end > start {
            let at = find_char(body, start, end, '=');
            proof {
                lemma_first_equals(line, at - start);
            }
            if at == end {
                proof {
                    lemma_malformed_prefix(body@, end as int);
                }
                return None;
            }
            let ghost text = line.skip(at - start + 1);
            assert(body@.subrange(at + 1, end as int) =~= text);
            assert(body@.subrange(start as int, at as int) =~= line.take(at - start));
            let value = match base64_decode(slice_subrange(body, at + 1, end)) {
                Some(value) => value,
                None => {
                    proof {
                        lemma_malformed_prefix(body@, end as int);
                    }
                    return None;
                },
            };
            if value.len() == 0 {
                proof {
                    lemma_malformed_prefix(body@, end as int);
                }
                return None;
            }
            let key = string_of(slice_subrange(body, start, at));
            payload.insert(key.as_str(), value);
        }
        if end == body.len() {
            assert(body@.take(end as int) =~= body@);
            return Some(payload);
        }
        start = end + 1;
    }
}

/// Reads an envelope: the text must start with the header; every line
/// behind it that is not empty must hold a key, an `=` and the base64 text
/// of a value that is not empty. Of two lines with one key the later one
/// counts. Any other text gives `None`.
pub fn decode(exchange: &str) -> (result: Option<ExchangePayload>)
    ensures
        match result {
            Some(payload) => payload.wf() && spec_decode(exchange@) == Some(payload@),
            None => spec_decode(exchange@) is None,
        },
        !has_header(exchange@) ==> result is None,
{
    let chars = chars_of(exchange);
    let header = chars_of(PROTOCOL);
    proof {
        lemma_protocol_text();
    }
    if !starts_with(chars.as_slice(), header.as_slice()) {
        return None;
    }
    assert(chars@.subrange(header@.len() as int, chars@.len() as int) =~= chars@.skip(
        protocol_header().len() as int,
    ));
    parse_body(slice_subrange(chars.as_slice(), header.len(), chars.len()))
}

/// Writes an envelope: the header, then one line for each field in the
/// order of the fields, with a line break between two lines and none at the
/// end.
///
/// Where every key is free of `=` and of line breaks and no value is empty,
/// decoding the envelope gives the payload back.
pub fn encode(payload: &ExchangePayload) -> (exchange: String)
    ensures
        exchange@ == envelope_text(payload.fields()),
        has_header(exchange@),
        encodable(payload.fields()) ==> spec_decode(exchange@) == Some(payload@),
{
    let mut exchange = String::from_str(PROTOCOL);
    let ghost fields = payload.fields();
    proof {
        lemma_protocol_text();
        assert(fields.take(0) =~= Seq::<(Seq<char>, Seq<u8>)>::empty());
        assert(exchange@ =~= envelope_text(fields.take(0)));
    }
    let mut i: usize = 0;
    while i < payload.entries.len()
        invariant
            i <= payload.entries@.len(),
            fields == payload.fields(),
            fields.len() == payload.entries@.len(),
            exchange@ == envelope_text(fields.take(i as int)),
            forall|j: int| 0 <= j < i ==> base64_faithful(#[trigger] fields[j].1),
        decreases payload.entries@.len() - i,
    {
        let entry = &payload.entries[i];
        let value = base64_encode(entry.value.as_bytes());
        if i > 0 {
            exchange.append("\n");
        }
        exchange.append(entry.key.as_str());
        exchange.append("=");
        exchange.append(value.as_str());
        proof {
            reveal_strlit("\n");
            reveal_strlit("=");
            let before = fields.take(i as int);
            let after = fields.take(i + 1);
            assert(after.drop_last() =~= before);
            assert(after.last() == fields[i as int]);
            assert(fields[i as int] == (entry.key@, entry.value@));
            assert("\n"@ =~= seq!['\n']);
            assert("="@ =~= seq!['=']);
            if i == 0 {
                assert(joined_lines(before) =~= Seq::<char>::empty());
            }
            assert(exchange@ =~= envelope_text(after));
        }
        i = i + 1;
    }
    proof {
        assert(fields.take(i as int) =~= fields);
        assert(exchange@.take(protocol_header().len() as int) =~= protocol_header());
        if encodable(fields) {
            lemma_decode_inverts_encode(fields);
        }
    }
    exchange
}

} // verus!
