//! One log record, as read from a line.

use vstd::prelude::*;

verus! {

/// A log record: the container it came from, the usual fields and the other
/// fields of a JSON record, each with its value written as JSON text.
#[derive(Debug, Clone, PartialEq)]
pub struct LogEntry {
    pub container: Option<String>,
    pub timestamp: Option<String>,
    pub level: Option<String>,
    pub message: Option<String>,
    pub extra_fields: Vec<(String, String)>,
}

/// The characters of an optional text, none when absent.
pub open spec fn text_or_empty(t: Option<String>) -> Seq<char> {
    match t {
        Some(s) => s@,
        None => Seq::empty(),
    }
}

/// The value of the first field named `key`, if any.
pub open spec fn field_value(fields: Seq<(Seq<char>, Seq<char>)>, key: Seq<char>) -> Option<
    Seq<char>,
>
    decreases fields.len(),
{
    if fields.len() == 0 {
        None
    } else if fields[0].0 == key {
        Some(fields[0].1)
    } else {
        field_value(fields.drop_first(), key)
    }
}

impl LogEntry {
    /// The value of the extra field `key`, if the entry has one.
    pub fn extra_field(&self, key: &str) -> (res: Option<&String>)
        ensures
            match res {
                Some(v) => field_value(self.extra_fields.deep_view(), key@) == Some(v@),
                None => field_value(self.extra_fields.deep_view(), key@) is None,
            },
    {
        let n = self.extra_fields.len();
        let mut i: usize = 0;
        assert(self.extra_fields.deep_view().skip(0) =~= self.extra_fields.deep_view());
        while i < n
            invariant
                n == self.extra_fields.len(),
                i <= n,
                field_value(self.extra_fields.deep_view(), key@) == field_value(
                    self.extra_fields.deep_view().skip(i as int),
                    key@,
                ),
            decreases n - i,
        {
            let ghost rest = self.extra_fields.deep_view().skip(i as int);
            assert(rest.drop_first() =~= self.extra_fields.deep_view().skip(i + 1));
            assert(rest[0] == self.extra_fields.deep_view()[i as int]);
            if crate::text::text_eq(self.extra_fields[i].0.as_str(), key) {
                return Some(&self.extra_fields[i].1);
            }
            i = i + 1;
        }
        None
    }
}

impl Default for LogEntry {
    fn default() -> (res: Self)
        ensures
            res.container is None,
            res.timestamp is None,
            res.level is None,
            res.message is None,
            res.extra_fields@.len() == 0,
    {
        LogEntry {
            container: None,
            timestamp: None,
            level: None,
            message: None,
            extra_fields: Vec::new(),
        }
    }
}

} // verus!
