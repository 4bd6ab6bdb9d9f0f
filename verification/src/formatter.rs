//! Rendering a log record as one line of text.

use vstd::prelude::*;
use vstd::string::{StrSliceExecFns, StringExecFns};
use crate::color::{ColoredText, painted};
use crate::color_manager::{with_container, container_color, level_color};
use crate::format_context::{FormatContext, byte_len};
use crate::log_entry::{LogEntry, text_or_empty, field_value};
use crate::text::{
    chars_of, text_eq, lowercase, uppercase, to_uppercase, is_ascii_text, ascii_upper, ascii_lower,
};

verus! {

/// The format used when none is given: the message alone.
pub open spec fn default_format() -> Seq<char> {
    ".message"@
}

/// The pieces of `s` between single spaces, as `str::split(' ')` gives them:
/// one more piece than there are spaces, empty pieces included.
pub open spec fn split_on_space(s: Seq<char>) -> Seq<Seq<char>>
    decreases s.len(),
{
    if s.len() == 0 {
        seq![Seq::empty()]
    } else {
        let pieces = split_on_space(s.drop_last());
        if s.last() == ' ' {
            pieces.push(Seq::empty())
        } else {
            pieces.update(pieces.len() - 1, pieces.last().push(s.last()))
        }
    }
}

/// The pieces of `str::split_terminator(' ')`: those of `split_on_space`
/// without the last one when it is empty.
pub open spec fn split_terminator(s: Seq<char>) -> Seq<Seq<char>> {
    let pieces = split_on_space(s);
    if pieces.last().len() == 0 {
        pieces.drop_last()
    } else {
        pieces
    }
}

/// What one piece of the format shows for `entry`. A piece `.name` shows a
/// field: `message`, `timestamp` and `level` their value, `container` the
/// message, any other name the JSON text of the extra field of that name;
/// an absent field shows nothing. Any other piece shows itself.
pub open spec fn property_text(part: Seq<char>, entry: LogEntry) -> Seq<char> {
    if part.len() > 0 && part[0] == '.' {
        let name = part.skip(1);
        if name == "message"@ {
            text_or_empty(entry.message)
        } else if name == "timestamp"@ {
            text_or_empty(entry.timestamp)
        } else if name == "level"@ {
            text_or_empty(entry.level)
        } else if name == "container"@ {
            text_or_empty(entry.message)
        } else {
            match field_value(entry.extra_fields.deep_view(), name) {
                Some(v) => v,
                None => Seq::empty(),
            }
        }
    } else {
        part
    }
}

/// Each piece shown, followed by a space.
pub open spec fn body_text(parts: Seq<Seq<char>>, entry: LogEntry) -> Seq<char>
    decreases parts.len(),
{
    if parts.len() == 0 {
        Seq::empty()
    } else {
        body_text(parts.drop_last(), entry) + property_text(parts.last(), entry) + seq![' ']
    }
}

/// `[container]`, ` timestamp`, ` level` (each only when present), then the
/// separator and the pieces of `format` shown for `entry`. The separator is
/// `: ` after a timestamp or a level, a single space after a container alone
/// (`[container] text`), and nothing when the line has no header.
pub open spec fn line_text(
    container_part: Option<Seq<char>>,
    entry: LogEntry,
    level_part: Option<Seq<char>>,
    format: Seq<char>,
) -> Seq<char> {
    (match container_part {
        Some(c) => seq!['['] + c + seq![']'],
        None => Seq::empty(),
    }) + (match entry.timestamp {
        Some(t) => seq![' '] + t@,
        None => Seq::empty(),
    }) + (match level_part {
        Some(l) => seq![' '] + l,
        None => Seq::empty(),
    }) + header_separator(container_part is Some, entry.timestamp is Some, level_part is Some)
        + body_text(split_terminator(format), entry)
}

/// What stands between a line's header and its body: `: ` after a timestamp
/// or a level, a space after a container alone, nothing without a header.
pub open spec fn header_separator(has_container: bool, has_timestamp: bool, has_level: bool) -> Seq<
    char,
> {
    if has_timestamp || has_level {
        seq![':', ' ']
    } else if has_container {
        seq![' ']
    } else {
        Seq::empty()
    }
}

/// What a piece of the format shows: a piece that does not start with `.` is
/// shown as written; `.message`, `.timestamp` and `.level` show that field
/// (nothing when absent); `.container` shows the message; any other `.name`
/// shows the JSON text of the extra field `name`, or nothing.
pub proof fn lemma_piece_shows(part: Seq<char>, entry: LogEntry)
    ensures
        (part.len() == 0 || part[0] != '.') ==> property_text(part, entry) == part,
        part == ".message"@ ==> property_text(part, entry) == text_or_empty(entry.message),
        part == ".timestamp"@ ==> property_text(part, entry) == text_or_empty(entry.timestamp),
        part == ".level"@ ==> property_text(part, entry) == text_or_empty(entry.level),
        part == ".container"@ ==> property_text(part, entry) == text_or_empty(entry.message),
        part.len() > 0 && part[0] == '.' && part.skip(1) != "message"@ && part.skip(1)
            != "timestamp"@ && part.skip(1) != "level"@ && part.skip(1) != "container"@
            ==> property_text(part, entry) == match field_value(
            entry.extra_fields.deep_view(),
            part.skip(1),
        ) {
            Some(v) => v,
            None => Seq::<char>::empty(),
        },
{
    reveal_strlit(".message");
    reveal_strlit(".timestamp");
    reveal_strlit(".level");
    reveal_strlit(".container");
    reveal_strlit("message");
    reveal_strlit("timestamp");
    reveal_strlit("level");
    reveal_strlit("container");
    assert(".message"@.skip(1) =~= "message"@);
    assert(".timestamp"@.skip(1) =~= "timestamp"@);
    assert(".level"@.skip(1) =~= "level"@);
    assert(".container"@.skip(1) =~= "container"@);
    assert("message"@.len() == 7 && "timestamp"@.len() == 9 && "level"@.len() == 5
        && "container"@.len() == 9);
    assert("timestamp"@[0] != "container"@[0]);
}

/// The length of an optional text, and of the space before it: 0 when absent.
pub open spec fn spaced_len(t: Option<Seq<char>>) -> int {
    match t {
        Some(s) => 1 + s.len() as int,
        None => 0,
    }
}

/// The parts of a line stand in a fixed order and none is dropped: the
/// container in brackets first (when there is one), then a space and the
/// timestamp whenever the record has one, then a space and the level part
/// (when there is one), then `: ` when a timestamp or a level was written
/// (else a space after a lone container), and the body last.
pub proof fn lemma_line_layout(
    container_part: Option<Seq<char>>,
    entry: LogEntry,
    level_part: Option<Seq<char>>,
    format: Seq<char>,
)
    ensures
        ({
            let line = line_text(container_part, entry, level_part, format);
            let ts = match entry.timestamp {
                Some(t) => Some(t@),
                None => None,
            };
            let a = match container_part {
                Some(c) => c.len() as int + 2,
                None => 0int,
            };
            let b = a + spaced_len(ts);
            let d = b + spaced_len(level_part);
            let body = body_text(split_terminator(format), entry);
            &&& container_part matches Some(c) ==> line.take(a) == seq!['['] + c + seq![']']
            &&& ts matches Some(t) ==> line.subrange(a, b) == seq![' '] + t
            &&& level_part matches Some(l) ==> line.subrange(b, d) == seq![' '] + l
            &&& (ts is Some || level_part is Some) ==> line.subrange(d, d + 2) == seq![':', ' ']
                && line.len() == d + 2 + body.len()
            &&& (ts is None && level_part is None && container_part is Some) ==> line[d] == ' '
                && line.len() == d + 1 + body.len()
            &&& (ts is None && level_part is None && container_part is None) ==> line == body
            &&& line.skip(line.len() - body.len()) == body
        }),
{
    let line = line_text(container_part, entry, level_part, format);
    let cpart = match container_part {
        Some(c) => seq!['['] + c + seq![']'],
        None => Seq::<char>::empty(),
    };
    let tpart = match entry.timestamp {
        Some(t) => seq![' '] + t@,
        None => Seq::<char>::empty(),
    };
    let lpart = match level_part {
        Some(l) => seq![' '] + l,
        None => Seq::<char>::empty(),
    };
    let sep = header_separator(container_part is Some, entry.timestamp is Some, level_part is Some);
    let body = body_text(split_terminator(format), entry);
    assert(line == cpart + tpart + lpart + sep + body);
    let a = cpart.len() as int;
    let b = a + tpart.len();
    let d = b + lpart.len();
    assert(line.take(a) =~= cpart);
    assert(line.subrange(a, b) =~= tpart);
    assert(line.subrange(b, d) =~= lpart);
    assert(line.subrange(d, d + sep.len()) =~= sep);
    assert(line.skip(line.len() - body.len()) =~= body);
    if entry.timestamp is None && level_part is None && container_part is None {
        assert(line =~= body);
    }
}

/// The characters of an optional text.
pub open spec fn opt_text(t: Option<&str>) -> Option<Seq<char>> {
    match t {
        Some(s) => Some(s@),
        None => None,
    }
}

proof fn lemma_split_on_space_nonempty(s: Seq<char>)
    ensures
        split_on_space(s).len() >= 1,
    decreases s.len(),
{
    if s.len() > 0 {
        lemma_split_on_space_nonempty(s.drop_last());
    }
}

/// A text without spaces is a single piece.
proof fn lemma_split_without_spaces(s: Seq<char>)
    requires
        forall|i: int| 0 <= i < s.len() ==> #[trigger] s[i] != ' ',
    ensures
        split_on_space(s) == seq![s],
    decreases s.len(),
{
    if s.len() == 0 {
        assert(s =~= Seq::<char>::empty());
    } else {
        let p = s.drop_last();
        assert forall|i: int| 0 <= i < p.len() implies #[trigger] p[i] != ' ' by {
            assert(p[i] == s[i]);
        }
        lemma_split_without_spaces(p);
        assert(s.last() == s[s.len() - 1]);
        assert(p.push(s.last()) =~= s);
        assert(seq![p].update(0, p.push(s.last())) =~= seq![s]);
    }
}

/// With the default format, the body of a line is the message followed by a
/// space (nothing but the space when there is no message).
pub proof fn lemma_default_format_shows_message(entry: LogEntry)
    ensures
        body_text(split_terminator(default_format()), entry) == text_or_empty(entry.message)
            + seq![' '],
{
    reveal_strlit(".message");
    reveal_strlit("message");
    let s = default_format();
    lemma_split_without_spaces(s);
    assert(split_on_space(s).last() == s);
    assert(split_terminator(s) == seq![s]);
    assert(s.skip(1) =~= "message"@);
    assert(property_text(s, entry) == text_or_empty(entry.message));
    assert(seq![s].drop_last() =~= Seq::<Seq<char>>::empty());
    assert(seq![s].last() == s);
    assert(body_text(seq![s], entry) == body_text(Seq::<Seq<char>>::empty(), entry) + property_text(s, entry) + seq![' ']);
    assert(Seq::<char>::empty() + text_or_empty(entry.message) + seq![' '] =~= text_or_empty(
        entry.message,
    ) + seq![' ']);
}

/// Appends what `part` shows for `entry` to `log_line`.
pub fn write_property(log_line: &mut String, part: &str, entry: &LogEntry)
    ensures
        final(log_line)@ == old(log_line)@ + property_text(part@, *entry),
{
    let n = part.unicode_len();
    if n > 0 && part.get_char(0) == '.' {
        let name = part.substring_char(1, n);
        assert(name@ =~= part@.skip(1));
        if text_eq(name, "message") {
            append_optional(log_line, &entry.message);
        } else if text_eq(name, "timestamp") {
            append_optional(log_line, &entry.timestamp);
        } else if text_eq(name, "level") {
            append_optional(log_line, &entry.level);
        } else if text_eq(name, "container") {
            append_optional(log_line, &entry.message);
        } else {
            match entry.extra_field(name) {
                Some(v) => log_line.append(v.as_str()),
                None => {
                    assert(old(log_line)@ + Seq::<char>::empty() =~= old(log_line)@);
                },
            }
        }
    } else {
        log_line.append(part);
    }
}

/// Appends the text, if there is one.
fn append_optional(log_line: &mut String, t: &Option<String>)
    ensures
        final(log_line)@ == old(log_line)@ + text_or_empty(*t),
{
    match t {
        Some(s) => log_line.append(s.as_str()),
        None => {
            assert(old(log_line)@ + Seq::<char>::empty() =~= old(log_line)@);
        },
    }
}

/// Renders records as `[container] timestamp LEVEL: ` followed by the pieces
/// of a format, each followed by a space (`[container] ` alone when there is
/// neither timestamp nor level).
pub trait LogFormat {
    /// The record as one line; the context remembers containers and widths.
    fn format(&self, entry: &LogEntry, context: &mut FormatContext) -> (res: String)
        requires
            old(context).wf(),
        ensures
            final(context).wf(),
    ;
}

/// The format is a space-separated list of pieces (`.message` when none is
/// given); records without a container are shown under the default
/// container, if there is one.
pub struct DefaultFormatter {
    format: String,
    default_container: Option<String>,
}

impl DefaultFormatter {
    /// The format of the lines' bodies.
    pub closed spec fn format_text(&self) -> Seq<char> {
        self.format@
    }

    /// The container that records without one are shown under.
    pub closed spec fn default_container_name(&self) -> Option<Seq<char>> {
        match self.default_container {
            Some(d) => Some(d@),
            None => None,
        }
    }

    /// The container that `entry` is shown under: its own, else the default.
    pub open spec fn shown_container(&self, entry: LogEntry) -> Option<Seq<char>> {
        match entry.container {
            Some(c) => Some(c@),
            None => self.default_container_name(),
        }
    }

    /// `res` is the line for `entry` once `ctx` has seen its container: the
    /// container name padded to the width and in its color, the level in
    /// upper case and in its color, each painted as `colored` does.
    pub open spec fn formatted(&self, res: Seq<char>, entry: LogEntry, ctx: FormatContext) -> bool {
        exists|cp: Option<Seq<char>>, lp: Option<Seq<char>>|
            {
                &&& match self.shown_container(entry) {
                    Some(c) => cp matches Some(x) && painted(
                        x,
                        c,
                        container_color(ctx.containers(), c),
                        ctx.indent_width(),
                    ),
                    None => cp is None,
                }
                &&& match entry.level {
                    Some(l) => lp matches Some(x) && painted(
                        x,
                        uppercase(l@),
                        level_color(lowercase(l@)),
                        0,
                    ),
                    None => lp is None,
                }
                &&& res == #[trigger] line_text(cp, entry, lp, self.format_text())
            }
    }

    /// A formatter with the given format (`.message` when `None`) and the
    /// given default container.
    pub fn new(format: Option<String>, default_container: Option<String>) -> (res: Self)
        ensures
            res.format_text() == match format {
                Some(f) => f@,
                None => default_format(),
            },
            res.default_container_name() == match default_container {
                Some(d) => Some(d@),
                None => None::<Seq<char>>,
            },
    {
        let format = match format {
            Some(f) => f,
            None => ".message".to_owned(),
        };
        DefaultFormatter { format, default_container }
    }

    /// Appends the body: each piece of the format shown for `entry`, followed
    /// by a space.
    fn write_body(&self, log_line: &mut String, entry: &LogEntry)
        ensures
            final(log_line)@ == old(log_line)@ + body_text(
                split_terminator(self.format_text()),
                *entry,
            ),
    {
        let format = self.format.as_str();
        let chars = chars_of(format);
        let n = chars.len();
        let ghost f = format@;
        let ghost mut done: Seq<Seq<char>> = Seq::empty();
        let mut start: usize = 0;
        let mut i: usize = 0;
        proof {
            reveal_strlit(" ");
            assert(f.take(0) =~= Seq::<char>::empty());
            assert(f.subrange(0, 0) =~= Seq::<char>::empty());
            assert(done.push(f.subrange(0, 0)) =~= seq![Seq::<char>::empty()]);
        }
        while i < n
            invariant
                chars@ == f,
                f == format@,
                f == self.format_text(),
                n == f.len(),
                start <= i <= n,
                split_on_space(f.take(i as int)) == done.push(f.subrange(start as int, i as int)),
                log_line@ == old(log_line)@ + body_text(done, *entry),
            decreases n - i,
        {
            let ghost prev = split_on_space(f.take(i as int));
            assert(f.take(i + 1).drop_last() =~= f.take(i as int));
            assert(f.take(i + 1).last() == f[i as int]);
            if chars[i] == ' ' {
                let piece = format.substring_char(start, i);
                write_property(log_line, piece, entry);
                log_line.append(" ");
                proof {
                    reveal_strlit(" ");
                    let old_done = done;
                    done = done.push(piece@);
                    assert(done.drop_last() =~= old_done);
                    assert(f.subrange(i + 1, i + 1) =~= Seq::<char>::empty());
                    assert(prev.push(Seq::<char>::empty()) =~= done.push(
                        f.subrange(i + 1, i + 1),
                    ));
                }
                start = i + 1;
            } else {
                proof {
                    assert(prev.last() == f.subrange(start as int, i as int));
                    assert(f.subrange(start as int, i as int).push(f[i as int]) =~= f.subrange(
                        start as int,
                        i + 1,
                    ));
                    assert(prev.update(prev.len() - 1, prev.last().push(f[i as int])) =~= done.push(
                        f.subrange(start as int, i + 1),
                    ));
                }
            }
            i = i + 1;
        }
        proof {
            assert(f.take(n as int) =~= f);
        }
        if start < n {
            let piece = format.substring_char(start, n);
            write_property(log_line, piece, entry);
            log_line.append(" ");
            proof {
                reveal_strlit(" ");
                let all = done.push(piece@);
                assert(all.drop_last() =~= done);
            }
        } else {
            proof {
                assert(done.push(f.subrange(start as int, n as int)).drop_last() =~= done);
            }
        }
    }

    /// The line with the given container and level parts, as they are shown,
    /// and the body of `entry`.
    pub fn assemble(&self, container_part: Option<&str>, level_part: Option<&str>, entry: &LogEntry)
        -> (res: String)
        ensures
            res@ == line_text(
                opt_text(container_part),
                *entry,
                opt_text(level_part),
                self.format_text(),
            ),
    {
        proof {
            reveal_strlit("[");
            reveal_strlit("]");
            reveal_strlit(" ");
            reveal_strlit(": ");
        }
        let mut log_line = String::new();
        let ghost s0 = log_line@;
        match container_part {
            Some(c) => {
                log_line.append("[");
                log_line.append(c);
                log_line.append("]");
            },
            None => {},
        }
        let ghost s1 = log_line@;
        match &entry.timestamp {
            Some(t) => {
                log_line.append(" ");
                log_line.append(t.as_str());
            },
            None => {},
        }
        let ghost s2 = log_line@;
        match level_part {
            Some(l) => {
                log_line.append(" ");
                log_line.append(l);
            },
            None => {},
        }
        let ghost s3 = log_line@;
        if entry.timestamp.is_some() || level_part.is_some() {
            log_line.append(": ");
        } else if container_part.is_some() {
            log_line.append(" ");
        }
        let ghost s4 = log_line@;
        self.write_body(&mut log_line, entry);
        proof {
            let cpart = match opt_text(container_part) {
                Some(c) => seq!['['] + c + seq![']'],
                None => Seq::<char>::empty(),
            };
            let tpart = match &entry.timestamp {
                Some(t) => seq![' '] + t@,
                None => Seq::<char>::empty(),
            };
            let lpart = match opt_text(level_part) {
                Some(l) => seq![' '] + l,
                None => Seq::<char>::empty(),
            };
            assert(s1 =~= cpart);
            assert(s2 =~= cpart + tpart);
            assert(s3 =~= cpart + tpart + lpart);
            assert(s4 =~= cpart + tpart + lpart + header_separator(
                container_part is Some,
                entry.timestamp is Some,
                level_part is Some,
            ));
        }
        log_line
    }
}

impl Default for DefaultFormatter {
    fn default() -> (res: Self)
        ensures
            res.format_text() == default_format(),
            res.default_container_name() is None,
    {
        Self::new(None, None)
    }
}

impl LogFormat for DefaultFormatter {
    fn format(&self, entry: &LogEntry, context: &mut FormatContext) -> (res: String)
        ensures
            match self.shown_container(*entry) {
                Some(c) => {
                    &&& final(context).containers() == with_container(old(context).containers(), c)
                    &&& final(context).indent_width() == if old(context).indent_width() < byte_len(
                        c,
                    ) {
                        byte_len(c)
                    } else {
                        old(context).indent_width()
                    }
                },
                None => {
                    &&& final(context).containers() == old(context).containers()
                    &&& final(context).indent_width() == old(context).indent_width()
                },
            },
            self.formatted(res@, *entry, *final(context)),
            match entry.level {
                Some(l) => is_ascii_text(l@) ==> uppercase(l@) == ascii_upper(l@) && level_color(
                    lowercase(l@),
                ) == level_color(ascii_lower(l@)),
                None => true,
            },
    {
        let shown: Option<&String> = match &entry.container {
            Some(c) => Some(c),
            None => match &self.default_container {
                Some(d) => Some(d),
                None => None,
            },
        };
        let container_part: Option<String> = match shown {
            Some(c) => {
                let colored = context.get_container_color(c.as_str());
                Some(colored.to_padded_string(context.indent()))
            },
            None => None,
        };
        let level_part: Option<String> = match &entry.level {
            Some(l) => {
                let color = context.get_level_color(l.as_str());
                let colored = ColoredText { input: to_uppercase(l.as_str()), color };
                Some(colored.to_string())
            },
            None => None,
        };
        let cp: Option<&str> = match &container_part {
            Some(x) => Some(x.as_str()),
            None => None,
        };
        let lp: Option<&str> = match &level_part {
            Some(x) => Some(x.as_str()),
            None => None,
        };
        let res = self.assemble(cp, lp, entry);
        assert(self.formatted(res@, *entry, *context));
        res
    }
}

} // verus!
