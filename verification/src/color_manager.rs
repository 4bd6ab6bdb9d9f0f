//! Assigning colors to containers and to log levels.

use vstd::prelude::*;
use crate::color::{Color, ColoredText};
use crate::text::{text_eq, to_lowercase, lowercase, is_ascii_text, ascii_lower};

verus! {

/// The colors handed to containers, in the order of their first appearance.
pub open spec fn color_pool() -> Seq<Color> {
    seq![
        Color::Cyan,
        Color::Green,
        Color::Yellow,
        Color::Blue,
        Color::Magenta,
        Color::BrightCyan,
        Color::BrightGreen,
        Color::BrightYellow,
    ]
}

/// The containers seen so far once `name` has been seen too: a new name is
/// appended, a known one changes nothing.
pub open spec fn with_container(names: Seq<Seq<char>>, name: Seq<char>) -> Seq<Seq<char>> {
    if names.contains(name) {
        names
    } else {
        names.push(name)
    }
}

/// The color of the container `name` that sits at its index in `names`; the
/// pool is used round-robin.
pub open spec fn container_color(names: Seq<Seq<char>>, name: Seq<char>) -> Color {
    color_pool()[names.index_of(name) % (color_pool().len() as int)]
}

/// The color of a log level given in lower case.
pub open spec fn level_color(lower: Seq<char>) -> Color {
    if lower == "error"@ || lower == "err"@ {
        Color::BrightRed
    } else if lower == "warn"@ || lower == "warning"@ {
        Color::Yellow
    } else if lower == "info"@ {
        Color::Green
    } else if lower == "debug"@ {
        Color::Blue
    } else if lower == "trace"@ {
        Color::Cyan
    } else {
        Color::White
    }
}

/// A container keeps its index, and so its color, whatever container is seen
/// after it.
pub proof fn lemma_known_container_keeps_color(
    names: Seq<Seq<char>>,
    name: Seq<char>,
    other: Seq<char>,
)
    requires
        names.no_duplicates(),
        names.contains(other),
    ensures
        with_container(names, name).index_of(other) == names.index_of(other),
        container_color(with_container(names, name), other) == container_color(names, other),
{
    let after = with_container(names, name);
    let k = names.index_of(other);
    assert(names[k] == other);
    assert(after[k] == other);
    assert(after.contains(other));
    let k2 = after.index_of(other);
    assert(after[k2] == other);
    if k2 != k {
        if k2 < names.len() {
            assert(names[k2] == other);
        } else {
            assert(after[k2] == name);
            assert(names.contains(name));
        }
    }
}

/// The containers seen once each of `others` has been seen, in turn.
pub open spec fn with_containers(names: Seq<Seq<char>>, others: Seq<Seq<char>>) -> Seq<Seq<char>>
    decreases others.len(),
{
    if others.len() == 0 {
        names
    } else {
        with_container(with_containers(names, others.drop_last()), others.last())
    }
}

/// Seeing a container never lists a name twice.
pub proof fn lemma_with_container_no_duplicates(names: Seq<Seq<char>>, name: Seq<char>)
    requires
        names.no_duplicates(),
    ensures
        with_container(names, name).no_duplicates(),
        with_container(names, name).contains(name),
        forall|c: Seq<char>| names.contains(c) ==> #[trigger] with_container(names, name).contains(c),
{
    if !names.contains(name) {
        lemma_new_container_gets_next_index(names, name);
        let after = names.push(name);
        assert(after[names.len() as int] == name);
        assert forall|c: Seq<char>| names.contains(c) implies #[trigger] after.contains(c) by {
            let i = choose|i: int| 0 <= i < names.len() && names[i] == c;
            assert(after[i] == c);
        }
    }
}

/// A container keeps its index, and so its color, for the whole session:
/// whatever containers, and however many, are seen after it.
pub proof fn lemma_container_keeps_color_for_session(
    names: Seq<Seq<char>>,
    others: Seq<Seq<char>>,
    a: Seq<char>,
)
    requires
        names.no_duplicates(),
        names.contains(a),
    ensures
        with_containers(names, others).no_duplicates(),
        with_containers(names, others).contains(a),
        with_containers(names, others).index_of(a) == names.index_of(a),
        container_color(with_containers(names, others), a) == container_color(names, a),
    decreases others.len(),
{
    if others.len() > 0 {
        lemma_container_keeps_color_for_session(names, others.drop_last(), a);
        let before = with_containers(names, others.drop_last());
        lemma_known_container_keeps_color(before, others.last(), a);
        lemma_with_container_no_duplicates(before, others.last());
    }
}

/// Seeing a container a second time changes nothing, so it is shown in the
/// same color as the first time.
pub proof fn lemma_repeated_container_changes_nothing(names: Seq<Seq<char>>, name: Seq<char>)
    ensures
        with_container(with_container(names, name), name) == with_container(names, name),
{
    if !names.contains(name) {
        let after = names.push(name);
        assert(after[names.len() as int] == name);
        assert(after.contains(name));
    }
}

/// A container seen for the first time gets the number of containers seen
/// before it as its index; the very first container gets index 0.
pub proof fn lemma_new_container_gets_next_index(names: Seq<Seq<char>>, name: Seq<char>)
    requires
        names.no_duplicates(),
        !names.contains(name),
    ensures
        with_container(names, name).index_of(name) == names.len(),
        with_container(names, name).no_duplicates(),
{
    let after = names.push(name);
    assert(after[names.len() as int] == name);
    assert(after.contains(name));
    let k = after.index_of(name);
    if k < names.len() {
        assert(names[k] == name);
    }
    assert forall|a: int, b: int|
        0 <= a < after.len() && 0 <= b < after.len() && a != b implies after[a] != after[b] by {
        if a == names.len() {
            assert(names[b] == after[b]);
        } else if b == names.len() {
            assert(names[a] == after[a]);
        }
    }
}

/// Two different containers never share an index.
pub proof fn lemma_distinct_containers_distinct_indices(
    names: Seq<Seq<char>>,
    a: Seq<char>,
    b: Seq<char>,
)
    requires
        names.no_duplicates(),
        names.contains(a),
        names.contains(b),
        a != b,
    ensures
        names.index_of(a) != names.index_of(b),
{
    assert(names[names.index_of(a)] == a);
    assert(names[names.index_of(b)] == b);
}

/// Indices that differ by the pool's size give the same color: the pool
/// wraps around.
pub proof fn lemma_color_pool_wraps_around(
    names: Seq<Seq<char>>,
    a: Seq<char>,
    b: Seq<char>,
)
    requires
        names.contains(a),
        names.contains(b),
        names.index_of(b) == names.index_of(a) + color_pool().len(),
    ensures
        container_color(names, a) == container_color(names, b),
{
    let i = names.index_of(a);
    assert(names[i] == a);
    assert(i >= 0);
    assert((i + 8) % 8 == i % 8);
}

/// Containers are colored in order of first appearance: cyan, green, yellow,
/// blue, magenta, bright cyan, bright green, bright yellow, then again from
/// cyan.
pub proof fn lemma_container_color_order(names: Seq<Seq<char>>, a: Seq<char>)
    requires
        names.contains(a),
    ensures
        ({
            let i = names.index_of(a);
            &&& i % 8 == 0 ==> container_color(names, a) == Color::Cyan
            &&& i % 8 == 1 ==> container_color(names, a) == Color::Green
            &&& i % 8 == 2 ==> container_color(names, a) == Color::Yellow
            &&& i % 8 == 3 ==> container_color(names, a) == Color::Blue
            &&& i % 8 == 4 ==> container_color(names, a) == Color::Magenta
            &&& i % 8 == 5 ==> container_color(names, a) == Color::BrightCyan
            &&& i % 8 == 6 ==> container_color(names, a) == Color::BrightGreen
            &&& i % 8 == 7 ==> container_color(names, a) == Color::BrightYellow
        }),
{
    assert(names[names.index_of(a)] == a);
}

/// Each known level name has its color (`error`/`err` bright red,
/// `warn`/`warning` yellow, `info` green, `debug` blue, `trace` cyan), and
/// every other lower-case level, whatever it is, is white.
pub proof fn lemma_level_colors(lower: Seq<char>)
    ensures
        lower == "error"@ || lower == "err"@ ==> level_color(lower) == Color::BrightRed,
        lower == "warn"@ || lower == "warning"@ ==> level_color(lower) == Color::Yellow,
        lower == "info"@ ==> level_color(lower) == Color::Green,
        lower == "debug"@ ==> level_color(lower) == Color::Blue,
        lower == "trace"@ ==> level_color(lower) == Color::Cyan,
        lower != "error"@ && lower != "err"@ && lower != "warn"@ && lower != "warning"@ && lower
            != "info"@ && lower != "debug"@ && lower != "trace"@ ==> level_color(lower)
            == Color::White,
{
    reveal_strlit("error");
    reveal_strlit("err");
    reveal_strlit("warn");
    reveal_strlit("warning");
    reveal_strlit("info");
    reveal_strlit("debug");
    reveal_strlit("trace");
    assert("error"@.len() == 5 && "err"@.len() == 3 && "warn"@.len() == 4 && "warning"@.len() == 7);
    assert("info"@.len() == 4 && "debug"@.len() == 5 && "trace"@.len() == 5);
    assert("error"@[0] != "debug"@[0] && "error"@[0] != "trace"@[0] && "debug"@[0] != "trace"@[0]);
    assert("warn"@[0] != "info"@[0]);
}

/// Remembers the containers in the order in which they first appeared; the
/// container at position `i` gets index `i` and the color `i` of the pool,
/// modulo the pool's size.
pub struct ColorManager {
    containers: Vec<String>,
    next_index: usize,
    color_pool: Vec<Color>,
}

impl View for ColorManager {
    type V = Seq<Seq<char>>;

    /// The names of the containers seen, in order of first appearance.
    closed spec fn view(&self) -> Seq<Seq<char>> {
        self.containers@.map_values(|s: String| s@)
    }
}

impl ColorManager {
    /// Each container is listed once, the next index is the number listed and
    /// the pool holds the colors of `color_pool`.
    pub closed spec fn wf(&self) -> bool {
        &&& self@.no_duplicates()
        &&& self.next_index == self.containers.len()
        &&& self.color_pool@ == color_pool()
    }

    /// No container is listed twice.
    pub proof fn lemma_wf_no_duplicates(&self)
        requires
            self.wf(),
        ensures
            self@.no_duplicates(),
    {
    }

    /// A manager that has seen no container.
    pub fn new() -> (res: Self)
        ensures
            res.wf(),
            res@ == Seq::<Seq<char>>::empty(),
    {
        let res = ColorManager {
            containers: Vec::new(),
            next_index: 0,
            color_pool: vec![
                Color::Cyan,
                Color::Green,
                Color::Yellow,
                Color::Blue,
                Color::Magenta,
                Color::BrightCyan,
                Color::BrightGreen,
                Color::BrightYellow,
            ],
        };
        assert(res@ =~= Seq::<Seq<char>>::empty());
        assert(res.color_pool@ =~= color_pool());
        res
    }

    /// The position of `container` among the containers seen, if seen.
    fn find(&self, container: &str) -> (res: Option<usize>)
        requires
            self.wf(),
        ensures
            match res {
                Some(i) => i < self@.len() && self@[i as int] == container@ && self@.index_of(
                    container@,
                ) == i,
                None => !self@.contains(container@),
            },
    {
        let n = self.containers.len();
        let mut i: usize = 0;
        while i < n
            invariant
                self.wf(),
                n == self.containers.len(),
                self@.len() == n,
                i <= n,
                forall|j: int| 0 <= j < i ==> self@[j] != container@,
            decreases n - i,
        {
            assert(self@[i as int] == self.containers@[i as int]@);
            if text_eq(self.containers[i].as_str(), container) {
                proof {
                    let k = self@.index_of(container@);
                    assert(self@.contains(container@));
                    assert(self@[k] == container@);
                    assert(self@.no_duplicates());
                }
                return Some(i);
            }
            i = i + 1;
        }
        None
    }

    /// The index of `container`: the number of other containers seen before
    /// it first appeared, or `None` when it has not been seen.
    pub fn container_index(&self, container: &str) -> (res: Option<usize>)
        requires
            self.wf(),
        ensures
            match res {
                Some(i) => self@.contains(container@) && i == self@.index_of(container@),
                None => !self@.contains(container@),
            },
    {
        self.find(container)
    }

    /// The number of colors that containers are given in turn.
    pub fn color_pool_size(&self) -> (res: usize)
        requires
            self.wf(),
        ensures
            res == color_pool().len(),
    {
        self.color_pool.len()
    }

    /// The container's name in its color. A container seen for the first time
    /// gets the next index; a known one keeps its index.
    pub fn get_container_color(&mut self, container: &str) -> (res: ColoredText)
        requires
            old(self).wf(),
        ensures
            final(self).wf(),
            final(self)@ == with_container(old(self)@, container@),
            res.input@ == container@,
            res.color == container_color(final(self)@, container@),
    {
        let index = match self.find(container) {
            Some(i) => i,
            None => {
                let i = self.next_index;
                let ghost before = self@;
                self.containers.push(container.to_owned());
                self.next_index = self.containers.len();
                proof {
                    assert(self@ =~= before.push(container@));
                    let names = self@;
                    assert(names[i as int] == container@);
                    assert(names.no_duplicates()) by {
                        assert forall|a: int, b: int|
                            0 <= a < names.len() && 0 <= b < names.len() && a != b implies names[a]
                            != names[b] by {
                            if a == i as int {
                                assert(names[b] == before[b]);
                            } else if b == i as int {
                                assert(names[a] == before[a]);
                            }
                        }
                    }
                    assert(names.contains(container@));
                    let k = names.index_of(container@);
                    assert(names[k] == container@);
                }
                i
            },
        };
        let color = self.color_pool[index % self.color_pool.len()];
        ColoredText { input: container.to_owned(), color }
    }

    /// The color of a log level, whatever its case.
    pub fn get_level_color(&self, level: &str) -> (res: Color)
        ensures
            res == level_color(lowercase(level@)),
            is_ascii_text(level@) ==> res == level_color(ascii_lower(level@)),
    {
        let lower = to_lowercase(level);
        level_color_for(lower.as_str())
    }
}

impl Default for ColorManager {
    fn default() -> (res: Self)
        ensures
            res.wf(),
            res@ == Seq::<Seq<char>>::empty(),
    {
        Self::new()
    }
}

/// The color of a log level that is already in lower case.
pub fn level_color_for(lower: &str) -> (res: Color)
    ensures
        res == level_color(lower@),
{
    if text_eq(lower, "error") || text_eq(lower, "err") {
        Color::BrightRed
    } else if text_eq(lower, "warn") || text_eq(lower, "warning") {
        Color::Yellow
    } else if text_eq(lower, "info") {
        Color::Green
    } else if text_eq(lower, "debug") {
        Color::Blue
    } else if text_eq(lower, "trace") {
        Color::Cyan
    } else {
        Color::White
    }
}

} // verus!
