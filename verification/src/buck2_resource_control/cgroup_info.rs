//! The control group of the process, as `/proc/self/cgroup` names it, and the
//! memory figures that the kernel keeps for a control group.

use vstd::prelude::*;

use crate::buck2_resource_control::path::CgroupPathBuf;
use crate::buck2_resource_control::path::abs_normalized;
use crate::buck2_resource_control::path::is_abs_normalized;
use crate::buck2_resource_control::path::parent_component_at;
use crate::text::chars_of;
use crate::text::last_occurrence;
use crate::text::parse_u64;
use crate::text::parsed_u64;
use crate::text::stands_at;
use crate::text::string_of;

verus! {

/// Where the first `c` in `s` stands at `from` or later; the length of `s`
/// if there is none.
pub open spec fn index_from(s: Seq<char>, c: char, from: int) -> int
    decreases s.len() - from,
{
    if 0 <= from < s.len() && s[from] != c {
        index_from(s, c, from + 1)
    } else {
        from
    }
}

/// What follows the second colon of a line of `/proc/self/cgroup`.
pub open spec fn after_second_colon(line: Seq<char>) -> Option<Seq<char>> {
    let first = index_from(line, ':', 0);
    let second = index_from(line, ':', first + 1);
    if first < line.len() && second < line.len() {
        Some(line.skip(second + 1))
    } else {
        None
    }
}

/// The first line of a text, without its line ending; none for an empty
/// text.
pub open spec fn first_line(s: Seq<char>) -> Option<Seq<char>> {
    if s.len() == 0 {
        None
    } else {
        Some(line_at(s, 0))
    }
}

/// The line that begins at `start`, without its line ending.
pub open spec fn line_at(s: Seq<char>, start: int) -> Seq<char> {
    let end = index_from(s, '\n', start);
    let raw = s.subrange(start, end);
    if end < s.len() && raw.len() > 0 && raw.last() == '\r' {
        raw.drop_last()
    } else {
        raw
    }
}

/// Why a control group could not be read.
pub enum CGroupError {
    /// The text has no line.
    NoFirstLine,
    /// The line has no third field.
    NoPath,
    /// The path of the control group, which is given, is not normalized.
    PathNotNormalized(String),
}

impl CGroupError {
    /// The error in words.
    pub fn message(&self) -> (text: String)
        ensures
            text@ == (match *self {
                CGroupError::NoFirstLine => "Failed to read the first line of /proc/self/cgroup"@,
                CGroupError::NoPath => "Failed to parse cgroup path"@,
                CGroupError::PathNotNormalized(path) => "Path is not normalized: "@ + path@,
            }),
    {
        match self {
            CGroupError::NoFirstLine => String::from_str(
                "Failed to read the first line of /proc/self/cgroup",
            ),
            CGroupError::NoPath => String::from_str("Failed to parse cgroup path"),
            CGroupError::PathNotNormalized(path) => {
                let mut text = String::from_str("Path is not normalized: ");
                text.append(path.as_str());
                text
            },
        }
    }
}

/// Why a line of `/proc/self/cgroup` gives no control group.
pub enum CGroupFailure {
    /// The line has no third field.
    NoPath,
    /// The path, which is given, is not normalized.
    PathNotNormalized(Seq<char>),
}

/// What parsing a line of `/proc/self/cgroup` gives: the path of the control
/// group under `/sys/fs/cgroup`.
pub open spec fn parsed_cgroup(line: Seq<char>) -> Result<Seq<char>, CGroupFailure> {
    match after_second_colon(line) {
        None => Err(CGroupFailure::NoPath),
        Some(rest) => {
            let path = "/sys/fs/cgroup"@ + rest;
            if abs_normalized(path) {
                Ok(path)
            } else {
                Err(CGroupFailure::PathNotNormalized(path))
            }
        },
    }
}

/// Whether `result` is what parsing `line` gives.
pub open spec fn is_parsed_cgroup(line: Seq<char>, result: Result<CGroupInfo, CGroupError>) -> bool {
    match parsed_cgroup(line) {
        Ok(path) => result matches Ok(info) && info.path.path@ == path && info.path.wf(),
        Err(CGroupFailure::NoPath) => result matches Err(CGroupError::NoPath),
        Err(CGroupFailure::PathNotNormalized(path)) => result matches Err(
            CGroupError::PathNotNormalized(text),
        ) && text@ == path,
    }
}

/// Whether `.slice` stands in `path` at position `at`.
pub open spec fn slice_at(path: Seq<char>, at: int) -> bool {
    stands_at(path, ".slice"@, at)
}

fn find_from(s: &Vec<char>, c: char, from: usize) -> (at: usize)
    requires
        from <= s@.len(),
    ensures
        at == index_from(s@, c, from as int),
        from <= at <= s@.len(),
{
    let mut at: usize = from;
    while at < s.len() && s[at] != c
        invariant
            from <= at <= s@.len(),
            index_from(s@, c, from as int) == index_from(s@, c, at as int),
        decreases s@.len() - at,
    {
        at = at + 1;
    }
    at
}

/// The end of the line that begins at `start`, and the end of what the line
/// holds before its line ending.
fn line_bounds(s: &Vec<char>, start: usize) -> (ends: (usize, usize))
    requires
        start <= s@.len(),
    ensures
        ends.0 == index_from(s@, '\n', start as int),
        start <= ends.1 <= ends.0 <= s@.len(),
        s@.subrange(start as int, ends.1 as int) == line_at(s@, start as int),
{
    let end = find_from(s, '\n', start);
    if end < s.len() && end > start && s[end - 1] == '\r' {
        proof {
            let raw = s@.subrange(start as int, end as int);
            assert(raw.last() == s@[end - 1]);
            assert(raw.drop_last() =~= s@.subrange(start as int, end - 1));
        }
        (end, end - 1)
    } else {
        proof {
            let raw = s@.subrange(start as int, end as int);
            if end > start {
                assert(raw.last() == s@[end - 1]);
            }
        }
        (end, end)
    }
}

pub struct CGroupInfo {
    pub path: CgroupPathBuf,
}

impl CGroupInfo {
    /// Reads the control group from the text of `/proc/self/cgroup`: from its
    /// first line.
    pub fn read_from_str(s: &str) -> (result: Result<CGroupInfo, CGroupError>)
        ensures
            match first_line(s@) {
                None => result matches Err(CGroupError::NoFirstLine),
                Some(line) => is_parsed_cgroup(line, result),
            },
    {
        let chars = chars_of(s);
        if chars.len() == 0 {
            return Err(CGroupError::NoFirstLine);
        }
        let (_, end) = line_bounds(&chars, 0);
        Self::parse_chars(&chars, end)
    }

    /// Parses a line of `/proc/self/cgroup`: the path of the control group is
    /// what follows the second colon, under `/sys/fs/cgroup`.
    pub fn parse(cgroup: &str) -> (result: Result<CGroupInfo, CGroupError>)
        ensures
            is_parsed_cgroup(cgroup@, result),
    {
        let chars = chars_of(cgroup);
        proof {
            assert(chars@.subrange(0, chars@.len() as int) =~= chars@);
        }
        Self::parse_chars(&chars, chars.len())
    }

    /// Parses the line that the first `end` characters make up.
    fn parse_chars(chars: &Vec<char>, end: usize) -> (result: Result<CGroupInfo, CGroupError>)
        requires
            end <= chars@.len(),
        ensures
            is_parsed_cgroup(chars@.subrange(0, end as int), result),
    {
        let line = crate::text::string_of(chars, 0, end);
        let line_chars = chars_of(line.as_str());
        let first = find_from(&line_chars, ':', 0);
        if first >= line_chars.len() {
            return Err(CGroupError::NoPath);
        }
        let second = find_from(&line_chars, ':', first + 1);
        if second >= line_chars.len() {
            return Err(CGroupError::NoPath);
        }
        let rest = string_of(&line_chars, second + 1, line_chars.len());
        proof {
            assert(line_chars@.skip(second + 1) =~= line_chars@.subrange(
                second + 1,
                line_chars@.len() as int,
            ));
        }
        // Can't join the two parts as paths, since the second part is absolute too
        let mut path = String::from_str("/sys/fs/cgroup");
        path.append(rest.as_str());
        let path_chars = chars_of(path.as_str());
        if is_abs_normalized(&path_chars) {
            Ok(CGroupInfo { path: CgroupPathBuf { path } })
        } else {
            Err(CGroupError::PathNotNormalized(path))
        }
    }

    /// The path to the closest slice in the path of the control group: the
    /// path up to the end of the last `.slice` in it. None if there is no
    /// slice in the path.
    #[verifier::rlimit(50)]
    pub fn get_slice(&self) -> (slice: Option<CgroupPathBuf>)
        requires
            self.path.wf(),
        ensures
            slice is Some <==> exists|at: int| slice_at(self.path.path@, at),
            slice matches Some(p) ==> p.wf() && exists|at: int|
                {
                    &&& #[trigger] slice_at(self.path.path@, at)
                    &&& forall|later: int| later > at ==> !slice_at(self.path.path@, later)
                    &&& p.path@ == self.path.path@.take(at + 6)
                },
    {
        let chars = chars_of(self.path.as_str());
        let pattern = chars_of(".slice");
        proof {
            reveal_strlit(".slice");
        }
        match last_occurrence(&chars, &pattern) {
            Some(at) => {
                proof {
                    assert(stands_at(chars@, pattern@, at as int));
                    assert(chars.len() <= usize::MAX);
                }
                let prefix = string_of(&chars, 0, at + pattern.len());
                proof {
                    let path = self.path.path@;
                    let p = prefix@;
                    assert(p =~= path.take(at + 6));
                    assert(slice_at(path, at as int));
                    assert(path.subrange(at as int, at + 6)[0] == path[at as int]);
                    assert(path.subrange(at as int, at + 6)[5] == path[at + 5]);
                    assert(p[p.len() - 1] == 'e');
                    assert forall|k: int| !parent_component_at(p, k) by {
                        if parent_component_at(p, k) {
                            if k + 2 == p.len() {
                                assert(p[k + 1] == '.');
                            } else {
                                assert(p[k + 2] == path[k + 2]);
                                assert(parent_component_at(path, k));
                            }
                        }
                    }
                }
                Some(CgroupPathBuf { path: prefix })
            },
            None => None,
        }
    }

    /// Where the kernel keeps the memory figures of the control group.
    pub fn memory_stat_path(&self) -> (path: String)
        ensures
            path@ == self.path.path@ + "/memory.stat"@,
    {
        let mut path = self.path.to_string();
        path.append("/memory.stat");
        path
    }

    /// Reads the memory figures of the control group from the text of its
    /// `memory.stat`.
    pub fn read_memory_stat(&self, content: &str) -> (result: Result<MemoryStat, MemoryStatError>)
        ensures
            match parsed_memory_stat(content@, 0, MemoryStat::zero()) {
                Ok(stat) => result == Ok::<MemoryStat, MemoryStatError>(stat),
                Err(e) => result matches Err(MemoryStatError { kind, line }) && kind == e.0
                    && line@ == e.1,
            },
    {
        MemoryStat::parse(content)
    }
}

/// A few interesting values from memory.stat
#[derive(Clone, Copy, Debug, PartialEq, Eq, Structural)]
pub struct MemoryStat {
    /// Anonymous memory, inclusive of swap.
    pub anon: u64,
    pub inactive_anon: u64,
    pub active_anon: u64,
    /// File-backed memory.
    pub file: u64,
    pub active_file: u64,
    pub inactive_file: u64,
    /// Kernel memory.
    pub kernel: u64,
}

/// What is wrong with a line of memory.stat.
#[derive(Clone, Copy, Debug, PartialEq, Eq, Structural)]
pub enum MemoryStatErrorKind {
    NoKey,
    NoValue,
    InvalidValue,
    TooManyParts,
}

/// A line of memory.stat that could not be read.
pub struct MemoryStatError {
    pub kind: MemoryStatErrorKind,
    pub line: String,
}

impl MemoryStatError {
    /// The error in words.
    pub fn message(&self) -> (text: String)
        ensures
            text@ == "Invalid line: '"@ + self.line@ + (match self.kind {
                MemoryStatErrorKind::NoKey => "' (no key)"@,
                MemoryStatErrorKind::NoValue => "' (no value)"@,
                MemoryStatErrorKind::InvalidValue => "' (invalid value)"@,
                MemoryStatErrorKind::TooManyParts => "' (too many parts)"@,
            }),
    {
        let mut text = String::from_str("Invalid line: '");
        text.append(self.line.as_str());
        match self.kind {
            MemoryStatErrorKind::NoKey => text.append("' (no key)"),
            MemoryStatErrorKind::NoValue => text.append("' (no value)"),
            MemoryStatErrorKind::InvalidValue => text.append("' (invalid value)"),
            MemoryStatErrorKind::TooManyParts => text.append("' (too many parts)"),
        }
        text
    }
}

/// Whether the character separates the parts of a line: the characters that
/// `char::is_whitespace` names.
pub open spec fn is_space(c: char) -> bool {
    let u = c as u32;
    ||| 0x09 <= u <= 0x0d
    ||| u == 0x20
    ||| u == 0x85
    ||| u == 0xa0
    ||| u == 0x1680
    ||| 0x2000 <= u <= 0x200a
    ||| u == 0x2028
    ||| u == 0x2029
    ||| u == 0x202f
    ||| u == 0x205f
    ||| u == 0x3000
}

/// Where the first character that is no space stands at `from` or later.
pub open spec fn skip_spaces(s: Seq<char>, from: int) -> int
    decreases s.len() - from,
{
    if 0 <= from < s.len() && is_space(s[from]) {
        skip_spaces(s, from + 1)
    } else {
        from
    }
}

/// Where the part that begins at `from` ends.
pub open spec fn part_end(s: Seq<char>, from: int) -> int
    decreases s.len() - from,
{
    if 0 <= from < s.len() && !is_space(s[from]) {
        part_end(s, from + 1)
    } else {
        from
    }
}

/// What a line of memory.stat holds: a key and a value, with spaces between
/// and around them and nothing else.
pub open spec fn parsed_line(line: Seq<char>) -> Result<(Seq<char>, u64), MemoryStatErrorKind> {
    let key_from = skip_spaces(line, 0);
    let key_to = part_end(line, key_from);
    let value_from = skip_spaces(line, key_to);
    let value_to = part_end(line, value_from);
    if key_from >= line.len() {
        Err(MemoryStatErrorKind::NoKey)
    } else if value_from >= line.len() {
        Err(MemoryStatErrorKind::NoValue)
    } else {
        match parsed_u64(line.subrange(value_from, value_to)) {
            None => Err(MemoryStatErrorKind::InvalidValue),
            Some(value) => if skip_spaces(line, value_to) < line.len() {
                Err(MemoryStatErrorKind::TooManyParts)
            } else {
                Ok((line.subrange(key_from, key_to), value))
            },
        }
    }
}

/// The figures after the entry of one line was noted. Keys that are not of
/// interest change nothing.
pub open spec fn with_entry(stat: MemoryStat, key: Seq<char>, value: u64) -> MemoryStat {
    if key == "anon"@ {
        MemoryStat { anon: value, ..stat }
    } else if key == "inactive_anon"@ {
        MemoryStat { inactive_anon: value, ..stat }
    } else if key == "active_anon"@ {
        MemoryStat { active_anon: value, ..stat }
    } else if key == "file"@ {
        MemoryStat { file: value, ..stat }
    } else if key == "active_file"@ {
        MemoryStat { active_file: value, ..stat }
    } else if key == "inactive_file"@ {
        MemoryStat { inactive_file: value, ..stat }
    } else if key == "kernel"@ {
        MemoryStat { kernel: value, ..stat }
    } else {
        stat
    }
}

/// Where the line after the line that begins at `start` begins; the length
/// of the text if that line is the last.
pub open spec fn next_line(content: Seq<char>, start: int) -> int {
    let end = index_from(content, '\n', start);
    if end < content.len() {
        end + 1
    } else {
        end
    }
}

/// What reading the lines of memory.stat from position `start` on gives,
/// with `stat` read so far: the figures, where a later line for a key
/// replaces an earlier one, or the first line that cannot be read.
pub open spec fn parsed_memory_stat(content: Seq<char>, start: int, stat: MemoryStat) -> Result<
    MemoryStat,
    (MemoryStatErrorKind, Seq<char>),
>
    decreases content.len() - start,
{
    if start < 0 || start >= content.len() {
        Ok(stat)
    } else {
        let line = line_at(content, start);
        match parsed_line(line) {
            Err(kind) => Err((kind, line)),
            Ok(entry) => {
                proof {
                    lemma_index_from(content, '\n', start);
                }
                parsed_memory_stat(
                    content,
                    next_line(content, start),
                    with_entry(stat, entry.0, entry.1),
                )
            },
        }
    }
}

pub proof fn lemma_index_from(s: Seq<char>, c: char, from: int)
    requires
        0 <= from <= s.len(),
    ensures
        from <= index_from(s, c, from) <= s.len(),
    decreases s.len() - from,
{
    if from < s.len() && s[from] != c {
        lemma_index_from(s, c, from + 1);
    }
}

/// Whether the character separates the parts of a line.
pub fn is_whitespace(c: char) -> (b: bool)
    ensures
        b == is_space(c),
{
    let u = c as u32;
    (0x09 <= u && u <= 0x0d) || u == 0x20 || u == 0x85 || u == 0xa0 || u == 0x1680 || (0x2000 <= u
        && u <= 0x200a) || u == 0x2028 || u == 0x2029 || u == 0x202f || u == 0x205f || u == 0x3000
}

fn skip_spaces_in(line: &Vec<char>, from: usize) -> (at: usize)
    requires
        from <= line@.len(),
    ensures
        at == skip_spaces(line@, from as int),
        from <= at <= line@.len(),
{
    let mut at: usize = from;
    while at < line.len() && is_whitespace(line[at])
        invariant
            from <= at <= line@.len(),
            skip_spaces(line@, from as int) == skip_spaces(line@, at as int),
        decreases line@.len() - at,
    {
        at = at + 1;
    }
    at
}

fn part_end_in(line: &Vec<char>, from: usize) -> (at: usize)
    requires
        from <= line@.len(),
    ensures
        at == part_end(line@, from as int),
        from <= at <= line@.len(),
{
    let mut at: usize = from;
    while at < line.len() && !is_whitespace(line[at])
        invariant
            from <= at <= line@.len(),
            part_end(line@, from as int) == part_end(line@, at as int),
        decreases line@.len() - at,
    {
        at = at + 1;
    }
    at
}

/// Reads one line of memory.stat.
fn parse_line(line: &Vec<char>) -> (result: Result<(String, u64), MemoryStatErrorKind>)
    ensures
        match parsed_line(line@) {
            Ok(entry) => result matches Ok(found) && found.0@ == entry.0 && found.1 == entry.1,
            Err(kind) => result == Err::<(String, u64), MemoryStatErrorKind>(kind),
        },
{
    let key_from = skip_spaces_in(line, 0);
    if key_from >= line.len() {
        return Err(MemoryStatErrorKind::NoKey);
    }
    let key_to = part_end_in(line, key_from);
    let value_from = skip_spaces_in(line, key_to);
    if value_from >= line.len() {
        return Err(MemoryStatErrorKind::NoValue);
    }
    let value_to = part_end_in(line, value_from);
    let value = match parse_u64(line, value_from, value_to) {
        Some(value) => value,
        None => {
            return Err(MemoryStatErrorKind::InvalidValue);
        },
    };
    if skip_spaces_in(line, value_to) < line.len() {
        return Err(MemoryStatErrorKind::TooManyParts);
    }
    Ok((string_of(line, key_from, key_to), value))
}

impl MemoryStat {
    pub open spec fn zero() -> MemoryStat {
        MemoryStat {
            anon: 0,
            inactive_anon: 0,
            active_anon: 0,
            file: 0,
            active_file: 0,
            inactive_file: 0,
            kernel: 0,
        }
    }

    /// Reads the figures of interest from the text of a memory.stat. A key
    /// that does not occur stands at zero.
    #[verifier::rlimit(50)]
    pub fn parse(content: &str) -> (result: Result<MemoryStat, MemoryStatError>)
        ensures
            match parsed_memory_stat(content@, 0, MemoryStat::zero()) {
                Ok(stat) => result == Ok::<MemoryStat, MemoryStatError>(stat),
                Err(e) => result matches Err(MemoryStatError { kind, line }) && kind == e.0
                    && line@ == e.1,
            },
    {
        let chars = chars_of(content);
        let mut res = MemoryStat {
            anon: 0,
            inactive_anon: 0,
            active_anon: 0,
            file: 0,
            active_file: 0,
            inactive_file: 0,
            kernel: 0,
        };
        let anon = String::from_str("anon");
        let inactive_anon = String::from_str("inactive_anon");
        let active_anon = String::from_str("active_anon");
        let file = String::from_str("file");
        let active_file = String::from_str("active_file");
        let inactive_file = String::from_str("inactive_file");
        let kernel = String::from_str("kernel");

        let mut start: usize = 0;
        while start < chars.len()
            invariant
                start <= chars@.len(),
                chars@ == content@,
                anon@ == "anon"@,
                inactive_anon@ == "inactive_anon"@,
                active_anon@ == "active_anon"@,
                file@ == "file"@,
                active_file@ == "active_file"@,
                inactive_file@ == "inactive_file"@,
                kernel@ == "kernel"@,
                parsed_memory_stat(content@, 0, MemoryStat::zero()) == parsed_memory_stat(
                    content@,
                    start as int,
                    res,
                ),
            decreases chars@.len() - start,
        {
            let (end, line_end) = line_bounds(&chars, start);
            let line = string_of(&chars, start, line_end);
            let line_chars = chars_of(line.as_str());
            match parse_line(&line_chars) {
                Err(kind) => {
                    return Err(MemoryStatError { kind, line });
                },
                Ok((key, value)) => {
                    if key == anon {
                        res.anon = value;
                    } else if key == inactive_anon {
                        res.inactive_anon = value;
                    } else if key == active_anon {
                        res.active_anon = value;
                    } else if key == file {
                        res.file = value;
                    } else if key == active_file {
                        res.active_file = value;
                    } else if key == inactive_file {
                        res.inactive_file = value;
                    } else if key == kernel {
                        res.kernel = value;
                    }
                    // Ignore other keys

                },
            }
            start = if end < chars.len() {
                end + 1
            } else {
                end
            };
        }
        Ok(res)
    }
}

} // verus!
