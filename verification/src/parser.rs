//! Splitting a log line into its container name and its content.

use vstd::prelude::*;
use vstd::string::StrSliceExecFns;
use serde_json::Value;
use crate::text::{
    in_white_space, lemma_is_space_is_white_space, is_space, is_space_char, chars_of, text_eq, to_lowercase, lowercase, is_ascii_text, ascii_lower,
};
use crate::log_entry::LogEntry;

verus! {

/// `e`, `q` and `r` cut `s` the way the line pattern `^([^\s]+)\s+\|\s+(.*)$`
/// does: `s[0..e]` is a non-empty run without whitespace (the container
/// name), `s[e..q]` is non-empty whitespace, `s[q]` is `|`, `s[q+1..r]` is
/// non-empty whitespace and `s[r..]` (the content) holds no line feed.
pub open spec fn line_shape(s: Seq<char>, e: int, q: int, r: int) -> bool {
    &&& 0 < e < q
    &&& q + 1 < r <= s.len()
    &&& forall|i: int| 0 <= i < e ==> !is_space(#[trigger] s[i])
    &&& forall|i: int| e <= i < q ==> is_space(#[trigger] s[i])
    &&& s[q] == '|'
    &&& forall|i: int| q + 1 <= i < r ==> is_space(#[trigger] s[i])
    &&& forall|i: int| r <= i < s.len() ==> #[trigger] s[i] != '\n'
}

/// The line pattern matches `s`.
pub open spec fn matches_line(s: Seq<char>) -> bool {
    exists|e: int, q: int, r: int| line_shape(s, e, q, r)
}

/// `(e, q, r)` is the cut that the pattern's captures report: among all cuts
/// the content starts as late as possible (the whitespace before it is taken
/// greedily).
pub open spec fn greedy_shape(s: Seq<char>, e: int, q: int, r: int) -> bool {
    &&& line_shape(s, e, q, r)
    &&& forall|e2: int, q2: int, r2: int| line_shape(s, e2, q2, r2) ==> r2 <= r
}

/// A line written as `name | content` reads back as that name and that
/// content, when the name is non-empty and free of whitespace and the content
/// neither starts with whitespace nor holds a line feed.
pub proof fn lemma_container_line_roundtrip(name: Seq<char>, content: Seq<char>)
    requires
        name.len() > 0,
        forall|i: int| 0 <= i < name.len() ==> !is_space(#[trigger] name[i]),
        content.len() > 0 ==> !is_space(content[0]),
        forall|i: int| 0 <= i < content.len() ==> #[trigger] content[i] != '\n',
    ensures
        ({
            let s = name + seq![' ', '|', ' '] + content;
            &&& matches_line(s)
            &&& forall|e: int, q: int, r: int|
                greedy_shape(s, e, q, r) ==> s.take(e) == name && s.skip(r) == content
        }),
{
    let s = name + seq![' ', '|', ' '] + content;
    let e = name.len() as int;
    assert(is_space(' '));
    assert(!is_space('|'));
    assert(s[e] == ' ');
    assert(s[e + 1] == '|');
    assert(s[e + 2] == ' ');
    assert forall|i: int| 0 <= i < e implies !is_space(#[trigger] s[i]) by {
        assert(s[i] == name[i]);
    }
    assert forall|i: int| e + 3 <= i < s.len() implies #[trigger] s[i] != '\n' by {
        assert(s[i] == content[i - e - 3]);
    }
    assert(line_shape(s, e, e + 1, e + 3));
    assert forall|e2: int, q2: int, r2: int| greedy_shape(s, e2, q2, r2) implies s.take(e2) == name
        && s.skip(r2) == content by {
        if e2 < e {
            assert(is_space(s[e2]));
        } else if e2 > e {
            assert(!is_space(s[e]));
        }
        if q2 > e + 1 {
            assert(is_space(s[e + 1]));
        }
        if r2 > e + 3 {
            assert(is_space(s[e + 3]));
            assert(s[e + 3] == content[0]);
        }
        assert(r2 >= e + 3);
        assert(s.take(e2) =~= name);
        assert(s.skip(r2) =~= content);
    }
}

/// The read-back law stated over Unicode `White_Space` itself: any non-empty
/// name without `White_Space` (such as `myapp_web_1`) and any content that
/// neither starts with `White_Space` nor holds a line feed come back from
/// `name | content` unchanged.
pub proof fn lemma_white_space_line_roundtrip(name: Seq<char>, content: Seq<char>)
    requires
        name.len() > 0,
        forall|i: int| 0 <= i < name.len() ==> !in_white_space(#[trigger] name[i]),
        content.len() > 0 ==> !in_white_space(content[0]),
        forall|i: int| 0 <= i < content.len() ==> #[trigger] content[i] != '\n',
    ensures
        ({
            let s = name + seq![' ', '|', ' '] + content;
            &&& matches_line(s)
            &&& forall|e: int, q: int, r: int|
                greedy_shape(s, e, q, r) ==> s.take(e) == name && s.skip(r) == content
        }),
{
    assert forall|i: int| 0 <= i < name.len() implies !is_space(#[trigger] name[i]) by {
        lemma_is_space_is_white_space(name[i]);
    }
    if content.len() > 0 {
        lemma_is_space_is_white_space(content[0]);
    }
    lemma_container_line_roundtrip(name, content);
}

/// Splits `line` into the container name and the content when it has the
/// shape `name | content`; otherwise there is no container and the whole
/// line is the content.
pub fn extract_container_and_content(line: &str) -> (res: (Option<String>, &str))
    ensures
        match res.0 {
            Some(name) => exists|e: int, q: int, r: int|
                {
                    &&& greedy_shape(line@, e, q, r)
                    &&& name@ == line@.take(e)
                    &&& res.1@ == line@.skip(r)
                },
            None => !matches_line(line@) && res.1@ == line@,
        },
{
    let chars = chars_of(line);
    let n = chars.len();
    let ghost s = line@;
    let mut e: usize = 0;
    while e < n && !is_space_char(chars[e])
        invariant
            chars@ == s,
            n == s.len(),
            e <= n,
            forall|i: int| 0 <= i < e ==> !is_space(#[trigger] s[i]),
        decreases n - e,
    {
        e = e + 1;
    }
    if e == 0 || e == n {
        proof {
            assert forall|e2: int, q2: int, r2: int| !line_shape(s, e2, q2, r2) by {
                if line_shape(s, e2, q2, r2) {
                    if e == 0 {
                        assert(!is_space(s[0]));
                    } else {
                        assert(is_space(s[e2]));
                    }
                }
            }
        }
        return (None, line);
    }
    let mut q: usize = e;
    while q < n && is_space_char(chars[q])
        invariant
            chars@ == s,
            n == s.len(),
            e <= q <= n,
            forall|i: int| e <= i < q ==> is_space(#[trigger] s[i]),
        decreases n - q,
    {
        q = q + 1;
    }
    proof {
        assert(is_space(s[e as int]));
    }
    // every cut of the line has its pipe at `q`
    assert(forall|e2: int, q2: int, r2: int| line_shape(s, e2, q2, r2) ==> e2 == e && q2 == q) by {
        assert forall|e2: int, q2: int, r2: int| line_shape(s, e2, q2, r2) implies e2 == e && q2
            == q by {
            if e2 < e {
                assert(is_space(s[e2]));
            } else if e2 > e {
                assert(!is_space(s[e as int]));
            }
            if q2 < q {
                assert(is_space(s[q2]));
                assert(!is_space('|')) by {
                    assert(('|' as u32) == 0x7c);
                }
            } else if q2 > q {
                assert(is_space(s[q as int]));
            }
        }
    }
    if q == n || chars[q] != '|' {
        return (None, line);
    }
    let mut r: usize = q + 1;
    while r < n && is_space_char(chars[r])
        invariant
            chars@ == s,
            n == s.len(),
            q + 1 <= r <= n,
            forall|i: int| q + 1 <= i < r ==> is_space(#[trigger] s[i]),
        decreases n - r,
    {
        r = r + 1;
    }
    // no cut lets the content start after `r`
    assert(forall|e2: int, q2: int, r2: int| line_shape(s, e2, q2, r2) ==> r2 <= r) by {
        assert forall|e2: int, q2: int, r2: int| line_shape(s, e2, q2, r2) implies r2 <= r by {
            if r2 > r {
                assert(is_space(s[r as int]));
            }
        }
    }
    if r == q + 1 {
        return (None, line);
    }
    let mut k: usize = r;
    while k < n
        invariant
            chars@ == s,
            s == line@,
            n == s.len(),
            r <= k <= n,
            forall|i: int| r <= i < k ==> #[trigger] s[i] != '\n',
            forall|e2: int, q2: int, r2: int| line_shape(s, e2, q2, r2) ==> r2 <= r,
        decreases n - k,
    {
        if chars[k] == '\n' {
            proof {
                assert forall|e2: int, q2: int, r2: int| !line_shape(s, e2, q2, r2) by {
                    if line_shape(s, e2, q2, r2) {
                        assert(s[k as int] != '\n');
                    }
                }
            }
            return (None, line);
        }
        k = k + 1;
    }
    assert(line_shape(s, e as int, q as int, r as int));
    let name = line.substring_char(0, e).to_owned();
    let content = line.substring_char(r, n);
    assert(name@ =~= s.take(e as int));
    assert(content@ =~= s.skip(r as int));
    assert(greedy_shape(s, e as int, q as int, r as int));
    (Some(name), content)
}

/// One field of a JSON object: its key, the string when the value is a JSON
/// string, and the value written as JSON text.
pub type JsonField = (String, Option<String>, String);

/// The kind of a JSON value.
#[derive(Clone, Copy, Debug, PartialEq, Eq, Structural)]
pub enum JsonKind {
    Null,
    Bool,
    Number,
    String,
    Array,
    Object,
}

/// What `serde_json` makes of `text`: `None` when it is not JSON; otherwise
/// the kind of the value and, for an object, each field as a `JsonField`
/// (plain values), in the order of `serde_json`'s map.
pub uninterp spec fn parsed_json(text: Seq<char>) -> Option<
    (JsonKind, Seq<(Seq<char>, Option<Seq<char>>, Seq<char>)>),
>;

/// No two fields of `fields` have the same key.
pub open spec fn object_keys_distinct(fields: Seq<(Seq<char>, Option<Seq<char>>, Seq<char>)>) -> bool {
    forall|i: int, j: int|
        0 <= i < j < fields.len() ==> #[trigger] fields[i].0 != #[trigger] fields[j].0
}

/// No two entries of `fields` have the same key.
pub open spec fn field_keys_distinct(fields: Seq<(Seq<char>, Seq<char>)>) -> bool {
    forall|i: int, j: int|
        0 <= i < j < fields.len() ==> #[trigger] fields[i].0 != #[trigger] fields[j].0
}

/// The plain values of what `parse_json` hands out.
pub open spec fn parsed_view(p: Option<(JsonKind, Vec<JsonField>)>) -> Option<
    (JsonKind, Seq<(Seq<char>, Option<Seq<char>>, Seq<char>)>),
> {
    match p {
        Some((k, fs)) => Some((k, fs.deep_view())),
        None => None,
    }
}

/// Reads `text` with `serde_json::from_str` as a `serde_json::Value` and
/// hands out its kind; for an object also its fields, with `Value::as_str`
/// and the value's `to_string`. The contract names the result (which texts
/// are JSON, and how values are written back, is `serde_json`'s to decide)
/// and states what the source shows: only an object has fields, and the
/// keys of an object are distinct (its map is a `BTreeMap`).
#[verifier::external_body]
fn parse_json(text: &str) -> (res: Option<(JsonKind, Vec<JsonField>)>)
    ensures
        parsed_view(res) == parsed_json(text@),
        res matches Some((k, fs)) ==> (k != JsonKind::Object ==> fs@.len() == 0)
            && object_keys_distinct(fs.deep_view()),
{
    let value: Value = serde_json::from_str(text).ok()?;
    Some(match value {
        Value::Null => (JsonKind::Null, Vec::new()),
        Value::Bool(_) => (JsonKind::Bool, Vec::new()),
        Value::Number(_) => (JsonKind::Number, Vec::new()),
        Value::String(_) => (JsonKind::String, Vec::new()),
        Value::Array(_) => (JsonKind::Array, Vec::new()),
        Value::Object(map) => (JsonKind::Object, map.into_iter().map(
            |(k, v)| (k, v.as_str().map(String::from), v.to_string()),
        ).collect()),
    })
}

/// The fields of a record as plain values: timestamp, level, message and the
/// other fields with their JSON text.
pub type EntryFields = (
    Option<Seq<char>>,
    Option<Seq<char>>,
    Option<Seq<char>>,
    Seq<(Seq<char>, Seq<char>)>,
);

/// The fields of `entry` as plain values.
pub open spec fn entry_fields(entry: LogEntry) -> EntryFields {
    (
        match entry.timestamp {
            Some(t) => Some(t@),
            None => None,
        },
        match entry.level {
            Some(l) => Some(l@),
            None => None,
        },
        match entry.message {
            Some(m) => Some(m@),
            None => None,
        },
        entry.extra_fields.deep_view(),
    )
}

/// Which usual field a JSON key names, whatever its case: 1 for `level`, 2
/// for `message` or `msg`, 3 for `timestamp`, 0 for any other key. The key
/// is compared in lower case, as `str::to_lowercase` gives it.
pub open spec fn known_field(key: Seq<char>) -> int {
    let k = lowercase(key);
    if k == "level"@ {
        1
    } else if k == "message"@ || k == "msg"@ {
        2
    } else if k == "timestamp"@ {
        3
    } else {
        0
    }
}

/// For every ASCII key among `fields`, its lower case is the ASCII one.
pub open spec fn ascii_keys_lowered(fields: Seq<(Seq<char>, Option<Seq<char>>, Seq<char>)>) -> bool {
    forall|i: int|
        0 <= i < fields.len() && is_ascii_text(#[trigger] fields[i].0) ==> lowercase(fields[i].0)
            == ascii_lower(fields[i].0)
}

/// The text a JSON value gives a usual field: the string itself for a JSON
/// string, the JSON text for any other value.
pub open spec fn field_text(f: (Seq<char>, Option<Seq<char>>, Seq<char>)) -> Seq<char> {
    match f.1 {
        Some(s) => s,
        None => f.2,
    }
}

/// The record's fields from a JSON object's fields, in order: the first key
/// that names a usual field fills it; every other field is kept with its
/// JSON text.
pub open spec fn fields_of_object(fields: Seq<(Seq<char>, Option<Seq<char>>, Seq<char>)>) -> EntryFields
    decreases fields.len(),
{
    if fields.len() == 0 {
        (None, None, None, Seq::empty())
    } else {
        let (t, l, m, x) = fields_of_object(fields.drop_last());
        let f = fields.last();
        let kind = known_field(f.0);
        if kind == 1 && l is None {
            (t, Some(field_text(f)), m, x)
        } else if kind == 2 && m is None {
            (t, l, Some(field_text(f)), x)
        } else if kind == 3 && t is None {
            (Some(field_text(f)), l, m, x)
        } else {
            (t, l, m, x.push((f.0, f.2)))
        }
    }
}

/// The record read from `content`: the fields of the JSON value when it is
/// an object; for anything else (not JSON, or JSON that is no object) the
/// content is plain text and all message.
pub open spec fn fields_of_content(
    content: Seq<char>,
    parsed: Option<(JsonKind, Seq<(Seq<char>, Option<Seq<char>>, Seq<char>)>)>,
) -> EntryFields {
    match parsed {
        Some((JsonKind::Object, fields)) => fields_of_object(fields),
        _ => (None, None, Some(content), Seq::empty()),
    }
}

/// The key names the level, whatever its case.
pub open spec fn names_level(key: Seq<char>) -> bool {
    lowercase(key) == "level"@
}

/// The key names the message (`message` or `msg`), whatever its case.
pub open spec fn names_message(key: Seq<char>) -> bool {
    lowercase(key) == "message"@ || lowercase(key) == "msg"@
}

/// The key names the timestamp, whatever its case.
pub open spec fn names_timestamp(key: Seq<char>) -> bool {
    lowercase(key) == "timestamp"@
}

/// The usual field of kind 1 (level), 2 (message) or 3 (timestamp).
spec fn slot(e: EntryFields, kind: int) -> Option<Seq<char>> {
    if kind == 1 {
        e.1
    } else if kind == 2 {
        e.2
    } else {
        e.0
    }
}

proof fn lemma_none_of_kind(fields: Seq<(Seq<char>, Option<Seq<char>>, Seq<char>)>, kind: int)
    requires
        1 <= kind <= 3,
        forall|j: int| 0 <= j < fields.len() ==> known_field(#[trigger] fields[j].0) != kind,
    ensures
        slot(fields_of_object(fields), kind) is None,
    decreases fields.len(),
{
    if fields.len() > 0 {
        let p = fields.drop_last();
        assert forall|j: int| 0 <= j < p.len() implies known_field(#[trigger] p[j].0) != kind by {
            assert(p[j] == fields[j]);
        }
        lemma_none_of_kind(p, kind);
        assert(known_field(fields[fields.len() - 1].0) != kind);
    }
}

proof fn lemma_first_of_kind(
    fields: Seq<(Seq<char>, Option<Seq<char>>, Seq<char>)>,
    kind: int,
    i: int,
)
    requires
        1 <= kind <= 3,
        0 <= i < fields.len(),
        known_field(fields[i].0) == kind,
        forall|j: int| 0 <= j < i ==> known_field(#[trigger] fields[j].0) != kind,
    ensures
        slot(fields_of_object(fields), kind) == Some(field_text(fields[i])),
    decreases fields.len(),
{
    let p = fields.drop_last();
    if i == fields.len() - 1 {
        assert forall|j: int| 0 <= j < p.len() implies known_field(#[trigger] p[j].0) != kind by {
            assert(p[j] == fields[j]);
        }
        lemma_none_of_kind(p, kind);
    } else {
        assert(p[i] == fields[i]);
        assert forall|j: int| 0 <= j < i implies known_field(#[trigger] p[j].0) != kind by {
            assert(p[j] == fields[j]);
        }
        lemma_first_of_kind(p, kind, i);
    }
}

/// What the key of a usual field says about `known_field`.
proof fn lemma_known_field_names(key: Seq<char>)
    ensures
        names_level(key) <==> known_field(key) == 1,
        names_message(key) <==> known_field(key) == 2,
        names_timestamp(key) <==> known_field(key) == 3,
{
    reveal_strlit("level");
    reveal_strlit("message");
    reveal_strlit("msg");
    reveal_strlit("timestamp");
    assert("level"@.len() == 5);
    assert("message"@.len() == 7);
    assert("msg"@.len() == 3);
    assert("timestamp"@.len() == 9);
}

/// The message of a JSON record is the text of the first field whose key is
/// `message` or `msg` in any case (`Message`, `MSG`, ...); the level that of
/// the first key `level`, the timestamp that of the first key `timestamp`,
/// in any case. A usual field no key names stays empty.
pub proof fn lemma_usual_fields_from_first_key(
    fields: Seq<(Seq<char>, Option<Seq<char>>, Seq<char>)>,
    i: int,
)
    requires
        0 <= i < fields.len(),
    ensures
        names_message(fields[i].0) && (forall|j: int|
            0 <= j < i ==> !names_message(#[trigger] fields[j].0)) ==> fields_of_object(fields).2
            == Some(field_text(fields[i])),
        names_level(fields[i].0) && (forall|j: int|
            0 <= j < i ==> !names_level(#[trigger] fields[j].0)) ==> fields_of_object(fields).1
            == Some(field_text(fields[i])),
        names_timestamp(fields[i].0) && (forall|j: int|
            0 <= j < i ==> !names_timestamp(#[trigger] fields[j].0)) ==> fields_of_object(
            fields,
        ).0 == Some(field_text(fields[i])),
        (forall|j: int| 0 <= j < fields.len() ==> !names_message(#[trigger] fields[j].0))
            ==> fields_of_object(fields).2 is None,
        (forall|j: int| 0 <= j < fields.len() ==> !names_level(#[trigger] fields[j].0))
            ==> fields_of_object(fields).1 is None,
        (forall|j: int| 0 <= j < fields.len() ==> !names_timestamp(#[trigger] fields[j].0))
            ==> fields_of_object(fields).0 is None,
{
    lemma_known_field_names(fields[i].0);
    assert forall|j: int| 0 <= j < fields.len() implies (names_level(#[trigger] fields[j].0)
        <==> known_field(fields[j].0) == 1) && (names_message(fields[j].0) <==> known_field(
        fields[j].0,
    ) == 2) && (names_timestamp(fields[j].0) <==> known_field(fields[j].0) == 3) by {
        lemma_known_field_names(fields[j].0);
    }
    if names_message(fields[i].0) && (forall|j: int|
        0 <= j < i ==> !names_message(#[trigger] fields[j].0)) {
        lemma_first_of_kind(fields, 2, i);
    }
    if names_level(fields[i].0) && (forall|j: int|
        0 <= j < i ==> !names_level(#[trigger] fields[j].0)) {
        lemma_first_of_kind(fields, 1, i);
    }
    if names_timestamp(fields[i].0) && (forall|j: int|
        0 <= j < i ==> !names_timestamp(#[trigger] fields[j].0)) {
        lemma_first_of_kind(fields, 3, i);
    }
    if forall|j: int| 0 <= j < fields.len() ==> !names_message(#[trigger] fields[j].0) {
        lemma_none_of_kind(fields, 2);
    }
    if forall|j: int| 0 <= j < fields.len() ==> !names_level(#[trigger] fields[j].0) {
        lemma_none_of_kind(fields, 1);
    }
    if forall|j: int| 0 <= j < fields.len() ==> !names_timestamp(#[trigger] fields[j].0) {
        lemma_none_of_kind(fields, 3);
    }
}

/// The number of usual fields that are filled.
spec fn filled(e: EntryFields) -> int {
    (if e.0 is Some { 1int } else { 0 }) + (if e.1 is Some { 1int } else { 0 }) + (if e.2 is Some {
        1int
    } else {
        0
    })
}

/// Every field of a JSON record is used once: it fills a usual field or is
/// kept among the other fields, in order. A field whose key names no usual
/// field is always kept, with its JSON text.
pub proof fn lemma_every_field_used_once(
    fields: Seq<(Seq<char>, Option<Seq<char>>, Seq<char>)>,
)
    ensures
        fields_of_object(fields).3.len() + (if fields_of_object(fields).0 is Some {
            1int
        } else {
            0
        }) + (if fields_of_object(fields).1 is Some {
            1int
        } else {
            0
        }) + (if fields_of_object(fields).2 is Some {
            1int
        } else {
            0
        }) == fields.len(),
        forall|i: int|
            0 <= i < fields.len() && !names_level(#[trigger] fields[i].0) && !names_message(
                fields[i].0,
            ) && !names_timestamp(fields[i].0) ==> fields_of_object(fields).3.contains(
                (fields[i].0, fields[i].2),
            ),
    decreases fields.len(),
{
    if fields.len() > 0 {
        let p = fields.drop_last();
        lemma_every_field_used_once(p);
        let x = fields_of_object(p).3;
        let x2 = fields_of_object(fields).3;
        let f = fields.last();
        lemma_known_field_names(f.0);
        assert forall|i: int|
            0 <= i < fields.len() && !names_level(#[trigger] fields[i].0) && !names_message(
                fields[i].0,
            ) && !names_timestamp(fields[i].0) implies x2.contains((fields[i].0, fields[i].2)) by {
            if i < p.len() {
                assert(p[i] == fields[i]);
                assert(x.contains((p[i].0, p[i].2)));
                let k = choose|k: int| 0 <= k < x.len() && x[k] == (p[i].0, p[i].2);
                if x2.len() > x.len() {
                    assert(x2[k] == x[k]);
                } else {
                    assert(x2 == x);
                }
            } else {
                assert(known_field(f.0) == 0);
                assert(x2 == x.push((f.0, f.2)));
                assert(x2[x.len() as int] == (f.0, f.2));
            }
        }
    }
}

/// The other fields kept from an object are some of its fields, so their
/// keys are distinct when the object's are.
proof fn lemma_extra_keys_distinct(fields: Seq<(Seq<char>, Option<Seq<char>>, Seq<char>)>)
    requires
        object_keys_distinct(fields),
    ensures
        field_keys_distinct(fields_of_object(fields).3),
        forall|j: int|
            0 <= j < fields_of_object(fields).3.len() ==> exists|i: int|
                0 <= i < fields.len() && #[trigger] fields_of_object(fields).3[j].0 == fields[i].0,
    decreases fields.len(),
{
    if fields.len() > 0 {
        let p = fields.drop_last();
        assert(object_keys_distinct(p)) by {
            assert forall|i: int, j: int| 0 <= i < j < p.len() implies #[trigger] p[i].0
                != #[trigger] p[j].0 by {
                assert(p[i] == fields[i] && p[j] == fields[j]);
            }
        }
        lemma_extra_keys_distinct(p);
        let x = fields_of_object(p).3;
        let x2 = fields_of_object(fields).3;
        let f = fields.last();
        assert forall|j: int| 0 <= j < x2.len() implies exists|i: int|
            0 <= i < fields.len() && #[trigger] x2[j].0 == fields[i].0 by {
            if j < x.len() {
                assert(x2[j] == x[j]);
                let i = choose|i: int| 0 <= i < p.len() && x[j].0 == p[i].0;
                assert(p[i] == fields[i]);
            } else {
                assert(x2[j].0 == fields[fields.len() - 1].0);
            }
        }
        if x2.len() > x.len() {
            assert forall|a: int, b: int| 0 <= a < b < x2.len() implies #[trigger] x2[a].0
                != #[trigger] x2[b].0 by {
                if b == x.len() {
                    let i = choose|i: int| 0 <= i < p.len() && x[a].0 == p[i].0;
                    assert(p[i] == fields[i]);
                    assert(x2[b].0 == fields[fields.len() - 1].0);
                } else {
                    assert(x2[a] == x[a] && x2[b] == x[b]);
                }
            }
        }
    }
}

/// Builds the record for `content` from what `serde_json` made of it:
/// `parsed` is the kind of the JSON value and an object's fields, or `None`
/// when `content` is not JSON. Only an object is read into fields.
pub fn entry_from_json(content: &str, parsed: Option<(JsonKind, Vec<JsonField>)>) -> (res: LogEntry)
    ensures
        res.container is None,
        entry_fields(res) == fields_of_content(content@, parsed_view(parsed)),
        match parsed_view(parsed) {
            Some((JsonKind::Object, fs)) => ascii_keys_lowered(fs) && (object_keys_distinct(fs)
                ==> field_keys_distinct(res.extra_fields.deep_view())),
            _ => res.extra_fields@.len() == 0,
        },
{
    let fields = match parsed {
        Some((JsonKind::Object, fields)) => fields,
        _ => {
            let mut entry = LogEntry::default();
            entry.message = Some(content.to_owned());
            assert(entry.extra_fields.deep_view() =~= Seq::<(Seq<char>, Seq<char>)>::empty());
            return entry;
        },
    };
    let ghost fs = fields.deep_view();
    let mut entry = LogEntry::default();
    assert(fs.take(0) =~= Seq::<(Seq<char>, Option<Seq<char>>, Seq<char>)>::empty());
    assert(entry.extra_fields.deep_view() =~= Seq::<(Seq<char>, Seq<char>)>::empty());
    let n = fields.len();
    let mut i: usize = 0;
    while i < n
        invariant
            n == fields.len(),
            fs == fields.deep_view(),
            i <= n,
            entry.container is None,
            entry_fields(entry) == fields_of_object(fs.take(i as int)),
            forall|j: int|
                0 <= j < i && is_ascii_text(#[trigger] fs[j].0) ==> lowercase(fs[j].0)
                    == ascii_lower(fs[j].0),
        decreases n - i,
    {
        let field = &fields[i];
        assert(fs.take(i + 1).drop_last() =~= fs.take(i as int));
        assert(fs.take(i + 1).last() == fs[i as int]);
        assert(fs[i as int] == field.deep_view());
        let key = to_lowercase(field.0.as_str());
        let text = match &field.1 {
            Some(s) => s.clone(),
            None => field.2.clone(),
        };
        let is_level = text_eq(key.as_str(), "level");
        let is_message = text_eq(key.as_str(), "message") || text_eq(key.as_str(), "msg");
        let is_timestamp = text_eq(key.as_str(), "timestamp");
        let ghost f = fs[i as int];
        proof {
            reveal_strlit("level");
            reveal_strlit("message");
            reveal_strlit("msg");
            reveal_strlit("timestamp");
        }
        assert(key@ == lowercase(f.0));
        assert(text@ == field_text(f));
        assert(is_level == (known_field(f.0) == 1));
        assert(is_message == (known_field(f.0) == 2));
        assert(is_timestamp == (known_field(f.0) == 3));
        if is_level && entry.level.is_none() {
            entry.level = Some(text);
        } else if is_message && entry.message.is_none() {
            entry.message = Some(text);
        } else if is_timestamp && entry.timestamp.is_none() {
            entry.timestamp = Some(text);
        } else {
            let ghost before = entry.extra_fields.deep_view();
            entry.extra_fields.push((field.0.clone(), field.2.clone()));
            assert(entry.extra_fields.deep_view() =~= before.push((field.0@, field.2@)));
        }
        i = i + 1;
    }
    assert(fs.take(n as int) =~= fs);
    proof {
        if object_keys_distinct(fs) {
            lemma_extra_keys_distinct(fs);
        }
    }
    entry
}

/// Reads one line's content: a JSON object gives its usual fields and keeps
/// the others (each key once); anything else is plain text and becomes the
/// message.
pub fn parse_log_content(content: &str) -> (res: LogEntry)
    ensures
        res.container is None,
        entry_fields(res) == fields_of_content(content@, parsed_json(content@)),
        field_keys_distinct(res.extra_fields.deep_view()),
        match parsed_json(content@) {
            Some((JsonKind::Object, fs)) => ascii_keys_lowered(fs),
            _ => true,
        },
{
    let parsed = parse_json(content);
    entry_from_json(content, parsed)
}

} // verus!
