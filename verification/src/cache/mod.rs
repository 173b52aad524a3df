//! The integrity cache: a text file that remembers a hash for each file name.
//!
//! The file is a sequence of records of two lines each, a file name and then
//! the hash with its tag before it:
//!
//! ```text
//! server.dll
//! argon2:$argon2id$v=19$...
//! ```
//!
//! Empty lines between records are allowed. [`CacheManager`] holds an image of
//! the file and changes it as the operations on the file would; reading the
//! file into the image and writing it back is left to the caller.

pub mod round_trip;

use crate::paths::join_path;
use crate::result::OpenCliError;
use crate::text::{
    chars_of, find_char, has_char, has_prefix, index_of_char, push_all, same,
    slice_of, starts_with, string_of,
};
use vstd::prelude::*;

verus! {

/// A record of the cache: a file name and the hash remembered for it.
#[derive(Debug, Clone)]
pub struct CacheEntry {
    pub filename: String,
    pub hash: String,
}

/// A record as a pair of texts: the file name, then the hash.
pub type Pair = (Seq<char>, Seq<char>);

impl View for CacheEntry {
    type V = Pair;

    open spec fn view(&self) -> Pair {
        (self.filename@, self.hash@)
    }
}

/// The file names that share one hash.
#[derive(Debug, Clone)]
pub struct DuplicateGroup {
    pub hash: String,
    pub files: Vec<String>,
}

/// The records of a list of entries.
pub open spec fn pairs_of(entries: Seq<CacheEntry>) -> Seq<Pair> {
    Seq::new(entries.len(), |i: int| entries[i]@)
}

/// What stands before the hash on a hash line.
pub open spec fn tag() -> Seq<char> {
    "argon2:"@
}

/// A line without the carriage return that may end it.
pub open spec fn strip_cr(line: Seq<char>) -> Seq<char> {
    if line.len() > 0 && line.last() == '\r' {
        line.drop_last()
    } else {
        line
    }
}

/// The lines of `s` from index `i` on. A line ends at a line feed, which does
/// not belong to it, nor does a carriage return before the line feed. What
/// follows the last line feed is a line too, unless it is empty.
pub open spec fn lines_from(s: Seq<char>, i: int) -> Seq<Seq<char>>
    decreases s.len() - i,
{
    let e = index_of_char(s, '\n', i);
    if i < 0 || i >= s.len() || e < i {
        Seq::empty()
    } else if e >= s.len() {
        seq![s.subrange(i, s.len() as int)]
    } else {
        seq![strip_cr(s.subrange(i, e))] + lines_from(s, e + 1)
    }
}

/// The lines of a text.
pub open spec fn lines(s: Seq<char>) -> Seq<Seq<char>> {
    lines_from(s, 0)
}

/// The line is a hash line: it begins with the tag.
pub open spec fn is_hash_line(line: Seq<char>) -> bool {
    starts_with(line, tag())
}

/// The hash on a hash line.
pub open spec fn payload(line: Seq<char>) -> Seq<char> {
    line.subrange(tag().len() as int, line.len() as int)
}

/// From line `i` on, every line that is not empty is followed by a hash line,
/// which belongs to it.
pub open spec fn well_formed_from(ls: Seq<Seq<char>>, i: int) -> bool
    decreases ls.len() - i,
{
    if i < 0 || i >= ls.len() {
        true
    } else if ls[i].len() == 0 {
        well_formed_from(ls, i + 1)
    } else if i + 1 < ls.len() && is_hash_line(ls[i + 1]) {
        well_formed_from(ls, i + 2)
    } else {
        false
    }
}

/// The records that a tolerant reader finds from line `i` on, in their
/// order, when `current` is the file name it has read last and not yet
/// paired. A hash line is paired with the file name before it and dropped
/// where there is none; empty lines are passed over; of two file names in a
/// row the first is dropped.
pub open spec fn records_from(ls: Seq<Seq<char>>, i: int, current: Option<Seq<char>>) -> Seq<Pair>
    decreases ls.len() - i,
{
    if i < 0 || i >= ls.len() {
        Seq::empty()
    } else if is_hash_line(ls[i]) {
        match current {
            Some(name) => seq![(name, payload(ls[i]))] + records_from(ls, i + 1, None),
            None => records_from(ls, i + 1, None),
        }
    } else if ls[i].len() > 0 {
        records_from(ls, i + 1, Some(ls[i]))
    } else {
        records_from(ls, i + 1, current)
    }
}

/// The records of a text, in their order, repetitions included.
pub open spec fn records(content: Seq<char>) -> Seq<Pair> {
    records_from(lines(content), 0, None)
}

/// The index of the first record named `name`, `ps.len()` if there is none.
pub open spec fn first_named(ps: Seq<Pair>, name: Seq<char>, from: int) -> int
    decreases ps.len() - from,
{
    if 0 <= from < ps.len() && ps[from].0 != name {
        first_named(ps, name, from + 1)
    } else {
        from
    }
}

/// `ps` with the record `p` put in: in the place of the record of the same
/// name, or at the end where there is none.
pub open spec fn upsert(ps: Seq<Pair>, p: Pair) -> Seq<Pair> {
    let i = first_named(ps, p.0, 0);
    if 0 <= i < ps.len() {
        ps.update(i, p)
    } else {
        ps.push(p)
    }
}

/// The records with each name once: a later record of a name replaces the
/// earlier one in its place.
pub open spec fn merged(ps: Seq<Pair>) -> Seq<Pair>
    decreases ps.len(),
{
    if ps.len() == 0 {
        Seq::empty()
    } else {
        upsert(merged(ps.drop_last()), ps.last())
    }
}

/// No name occurs twice.
pub open spec fn distinct_names(ps: Seq<Pair>) -> bool {
    forall|i: int, j: int| 0 <= i < j < ps.len() ==> (#[trigger] ps[i]).0 != (#[trigger] ps[j]).0
}

/// What the cache holds: its records with each name once.
pub open spec fn table(content: Seq<char>) -> Seq<Pair> {
    merged(records(content))
}

/// The hash that a reader finds for `name` who reads the lines from `i` on one
/// by one and stops at the first line equal to `name` with a hash line behind
/// it. The line behind a line equal to `name` is consumed in any case.
pub open spec fn lookup_from(ls: Seq<Seq<char>>, i: int, name: Seq<char>) -> Option<Seq<char>>
    decreases ls.len() - i,
{
    if i < 0 || i >= ls.len() {
        None
    } else if ls[i] == name {
        if i + 1 >= ls.len() {
            None
        } else if is_hash_line(ls[i + 1]) {
            Some(payload(ls[i + 1]))
        } else {
            lookup_from(ls, i + 2, name)
        }
    } else {
        lookup_from(ls, i + 1, name)
    }
}

/// The hash remembered for `name`.
pub open spec fn lookup(content: Seq<char>, name: Seq<char>) -> Option<Seq<char>> {
    lookup_from(lines(content), 0, name)
}

/// The two lines of a record whose hash line is `hash_line`.
pub open spec fn record_text(name: Seq<char>, hash_line: Seq<char>) -> Seq<char> {
    name + seq!['\n'] + hash_line + seq!['\n']
}

/// The two lines of a record.
pub open spec fn entry_text(name: Seq<char>, hash: Seq<char>) -> Seq<char> {
    record_text(name, tag() + hash)
}

/// The text of a list of records.
pub open spec fn render(ps: Seq<Pair>) -> Seq<char>
    decreases ps.len(),
{
    if ps.len() == 0 {
        Seq::empty()
    } else {
        render(ps.drop_last()) + entry_text(ps.last().0, ps.last().1)
    }
}

/// What is left from line `i` on when the records of `name` are taken out:
/// the records of other names, each as two lines. `current` is the file name
/// read last and not yet paired; `skip` says that the line at `i` follows a
/// line equal to `name` and goes with it.
pub open spec fn kept_from(
    ls: Seq<Seq<char>>,
    i: int,
    current: Option<Seq<char>>,
    skip: bool,
    name: Seq<char>,
) -> Seq<char>
    decreases ls.len() - i,
{
    if i < 0 || i >= ls.len() {
        Seq::empty()
    } else if skip {
        kept_from(ls, i + 1, current, false, name)
    } else if is_hash_line(ls[i]) {
        match current {
            Some(f) => record_text(f, ls[i]) + kept_from(ls, i + 1, None, false, name),
            None => kept_from(ls, i + 1, None, false, name),
        }
    } else if ls[i].len() > 0 {
        if ls[i] == name {
            kept_from(ls, i + 1, None, true, name)
        } else {
            kept_from(ls, i + 1, Some(ls[i]), false, name)
        }
    } else {
        kept_from(ls, i + 1, current, false, name)
    }
}

/// The text without the records of `name`.
pub open spec fn without(content: Seq<char>, name: Seq<char>) -> Seq<char> {
    kept_from(lines(content), 0, None, false, name)
}

/// A text that can be a file name or a hash in the cache: not empty, and on
/// one line.
pub open spec fn storable(text: Seq<char>) -> bool {
    text.len() > 0 && !text.contains('\n')
}

/// The names of the records with the hash `hash`, in their order.
pub open spec fn files_with(ps: Seq<Pair>, hash: Seq<char>) -> Seq<Seq<char>>
    decreases ps.len(),
{
    if ps.len() == 0 {
        Seq::empty()
    } else if ps.last().1 == hash {
        files_with(ps.drop_last(), hash).push(ps.last().0)
    } else {
        files_with(ps.drop_last(), hash)
    }
}

/// Record `i` is the first with its hash.
pub open spec fn first_with_hash(ps: Seq<Pair>, i: int) -> bool {
    forall|j: int| 0 <= j < i ==> (#[trigger] ps[j]).1 != ps[i].1
}

/// The hashes that more than one record of `ps` has and that occur among the
/// first `n` records, each once, in the order in which they first occur.
pub open spec fn repeated_hashes(ps: Seq<Pair>, n: int) -> Seq<Seq<char>>
    decreases n,
{
    if n <= 0 || n > ps.len() {
        Seq::empty()
    } else if first_with_hash(ps, n - 1) && files_with(ps, ps[n - 1].1).len() > 1 {
        repeated_hashes(ps, n - 1).push(ps[n - 1].1)
    } else {
        repeated_hashes(ps, n - 1)
    }
}

/// The groups are those of the records `ps`: one for each hash that more than
/// one record has, in the order in which the hashes first occur, each with
/// the names of the records of that hash, in their order.
pub open spec fn groups_of(groups: Seq<DuplicateGroup>, ps: Seq<Pair>) -> bool {
    let hashes = repeated_hashes(ps, ps.len() as int);
    &&& groups.len() == hashes.len()
    &&& forall|k: int|
        0 <= k < groups.len() ==> (#[trigger] groups[k]).hash@ == hashes[k]
            && crate::names::texts(groups[k].files@) == files_with(ps, hashes[k])
}

/// The lines of a text.
pub fn split_lines(s: &[char]) -> (r: Vec<Vec<char>>)
    ensures
        crate::names::rows(r@) == lines(s@),
{
    let mut out: Vec<Vec<char>> = Vec::new();
    let mut i: usize = 0;
    while i < s.len()
        invariant
            i <= s.len(),
            lines(s@) == crate::names::rows(out@) + lines_from(s@, i as int),
        decreases s.len() - i,
    {
        let e = find_char(s, '\n', i);
        let ghost before = crate::names::rows(out@);
        if e >= s.len() {
            out.push(slice_of(s, i, s.len()));
            assert(crate::names::rows(out@) =~= before + seq![s@.subrange(i as int, s.len() as int)]);
            assert(lines_from(s@, s.len() as int) =~= Seq::<Seq<char>>::empty());
            i = s.len();
        } else {
            let end = if e > i && s[e - 1] == '\r' {
                e - 1
            } else {
                e
            };
            let line = slice_of(s, i, end);
            assert(line@ =~= strip_cr(s@.subrange(i as int, e as int))) by {
                let full = s@.subrange(i as int, e as int);
                if e > i {
                    assert(full.last() == s@[e - 1]);
                }
            }
            out.push(line);
            assert(crate::names::rows(out@) =~= before + seq![
                strip_cr(s@.subrange(i as int, e as int)),
            ]);
            i = e + 1;
        }
    }
    assert(lines_from(s@, i as int) =~= Seq::<Seq<char>>::empty());
    out
}

fn hash_line(line: &[char]) -> (r: bool)
    ensures
        r == is_hash_line(line@),
{
    let t = chars_of("argon2:");
    has_prefix(line, t.as_slice())
}

/// The hash on a hash line.
fn payload_of(line: &[char]) -> (r: String)
    requires
        is_hash_line(line@),
    ensures
        r@ == payload(line@),
{
    let t = chars_of("argon2:");
    string_of(&line[t.len()..line.len()])
}

/// Whether a text can be a file name or a hash in the cache.
fn is_storable(text: &[char]) -> (r: bool)
    ensures
        r == storable(text@),
{
    text.len() > 0 && !has_char(text, '\n')
}

/// Appends the two lines of a record.
fn push_record(out: &mut Vec<char>, name: &[char], hash_line: &[char])
    ensures
        final(out)@ == old(out)@ + record_text(name@, hash_line@),
{
    push_all(out, name);
    out.push('\n');
    push_all(out, hash_line);
    out.push('\n');
    assert(out@ =~= old(out)@ + record_text(name@, hash_line@));
}

/// Appends the two lines of a record with the given hash.
fn push_entry(out: &mut Vec<char>, name: &[char], hash: &[char])
    ensures
        final(out)@ == old(out)@ + entry_text(name@, hash@),
{
    let t = chars_of("argon2:");
    let mut line: Vec<char> = Vec::new();
    push_all(&mut line, t.as_slice());
    push_all(&mut line, hash);
    assert(line@ =~= tag() + hash@);
    push_record(out, name, line.as_slice());
}

/// The index of the entry named `name`, `entries.len()` if there is none.
fn find_named(entries: &Vec<CacheEntry>, name: &str) -> (r: usize)
    ensures
        r == first_named(pairs_of(entries@), name@, 0),
        r <= entries.len(),
{
    let n = chars_of(name);
    let mut i: usize = 0;
    while i < entries.len()
        invariant
            i <= entries.len(),
            n@ == name@,
            first_named(pairs_of(entries@), name@, 0) == first_named(
                pairs_of(entries@),
                name@,
                i as int,
            ),
        decreases entries.len() - i,
    {
        let f = chars_of(entries[i].filename.as_str());
        assert(pairs_of(entries@)[i as int].0 == entries@[i as int].filename@);
        if same(f.as_slice(), n.as_slice()) {
            return i;
        }
        i += 1;
    }
    i
}

/// Puts a record into a list that holds each name once.
fn put(entries: &mut Vec<CacheEntry>, entry: CacheEntry)
    ensures
        pairs_of(final(entries)@) == upsert(pairs_of(old(entries)@), entry@),
{
    let i = find_named(entries, entry.filename.as_str());
    if i < entries.len() {
        entries.set(i, entry);
        assert(pairs_of(entries@) =~= upsert(pairs_of(old(entries)@), entry@));
    } else {
        entries.push(entry);
        assert(pairs_of(entries@) =~= upsert(pairs_of(old(entries)@), entry@));
    }
}

/// An image of the cache file of a directory.
#[derive(Debug, Clone)]
pub struct CacheManager {
    cache_file: String,
    content: Option<String>,
}

/// The message with which a record is refused: it names the file name where
/// that cannot be stored, and the hash otherwise.
pub open spec fn refusal(filename: Seq<char>) -> Seq<char> {
    if !storable(filename) {
        "store_hash: Invalid filename - must not be empty or contain newlines"@
    } else {
        "store_hash: Invalid hash format - must not be empty or contain newlines"@
    }
}

impl CacheManager {
    /// The path of the cache file.
    pub closed spec fn path(&self) -> Seq<char> {
        self.cache_file@
    }

    /// The text of the cache file, `None` while the file does not exist.
    pub closed spec fn text(&self) -> Option<Seq<char>> {
        match self.content {
            Some(c) => Some(c@),
            None => None,
        }
    }

    /// The text of the file, empty while the file does not exist.
    pub open spec fn text_or_empty(&self) -> Seq<char> {
        match self.text() {
            Some(c) => c,
            None => Seq::empty(),
        }
    }

    /// The cache of the directory `base_dir`. Its file is `cache.txt` in that
    /// directory, and is taken not to exist until [`Self::load`] says
    /// otherwise.
    pub fn new(base_dir: &str) -> (r: CacheManager)
        ensures
            r.path() == join_path(base_dir@, "cache.txt"@),
            r.text() is None,
    {
        CacheManager { cache_file: crate::paths::join(base_dir, "cache.txt"), content: None }
    }

    /// The path of the cache file.
    pub fn cache_file(&self) -> (r: &str)
        ensures
            r@ == self.path(),
    {
        self.cache_file.as_str()
    }

    /// Takes `content` as the text of the file; `None` says that the file
    /// does not exist.
    pub fn load(&mut self, content: Option<String>)
        ensures
            final(self).path() == old(self).path(),
            match content {
                Some(c) => final(self).text() == Some(c@),
                None => final(self).text() is None,
            },
    {
        self.content = content;
    }

    /// The text of the file as it should be written, `None` while the file
    /// does not exist.
    pub fn content(&self) -> (r: Option<&str>)
        ensures
            match r {
                Some(c) => self.text() == Some(c@),
                None => self.text() is None,
            },
    {
        match &self.content {
            Some(c) => Some(c.as_str()),
            None => None,
        }
    }

    fn chars(&self) -> (r: Vec<char>)
        ensures
            r@ == self.text_or_empty(),
    {
        match &self.content {
            Some(c) => chars_of(c.as_str()),
            None => Vec::new(),
        }
    }

    /// Whether the file is well formed: every line that is not empty is a
    /// file name with a hash line behind it. A file that does not exist is
    /// well formed.
    pub fn find_cache_integrity(&self) -> (r: bool)
        ensures
            r == well_formed_from(lines(self.text_or_empty()), 0),
    {
        let text = self.chars();
        let ls = split_lines(text.as_slice());
        let ghost all = lines(text@);
        let mut i: usize = 0;
        while i < ls.len()
            invariant
                i <= ls.len(),
                crate::names::rows(ls@) == all,
                all == lines(self.text_or_empty()),
                well_formed_from(all, 0) == well_formed_from(all, i as int),
            decreases ls.len() - i,
        {
            assert(all[i as int] == ls@[i as int]@);
            if ls[i].len() == 0 {
                i += 1;
            } else if i + 1 < ls.len() {
                assert(all[i + 1] == ls@[i + 1]@);
                if hash_line(ls[i + 1].as_slice()) {
                    i += 2;
                } else {
                    return false;
                }
            } else {
                return false;
            }
        }
        true
    }

    /// The records of the file, each name once: where a name occurs again,
    /// the later hash replaces the earlier one.
    pub fn load_all_hashes(&self) -> (r: Vec<CacheEntry>)
        ensures
            pairs_of(r@) == table(self.text_or_empty()),
    {
        let text = self.chars();
        let ls = split_lines(text.as_slice());
        let ghost all = lines(text@);
        let mut entries: Vec<CacheEntry> = Vec::new();
        let mut current: Option<String> = None;
        let ghost mut seen: Seq<Pair> = Seq::empty();
        let mut i: usize = 0;
        assert(pairs_of(entries@) =~= merged(seen));
        while i < ls.len()
            invariant
                i <= ls.len(),
                crate::names::rows(ls@) == all,
                pairs_of(entries@) == merged(seen),
                records_from(all, 0, None) == seen + records_from(
                    all,
                    i as int,
                    match current {
                        Some(c) => Some(c@),
                        None => None,
                    },
                ),
            decreases ls.len() - i,
        {
            assert(all[i as int] == ls@[i as int]@);
            let line = ls[i].as_slice();
            if hash_line(line) {
                match current.take() {
                    Some(name) => {
                        let entry = CacheEntry { filename: name, hash: payload_of(line) };
                        proof {
                            let grown = seen.push(entry@);
                            assert(grown.drop_last() =~= seen);
                            assert(seen + (seq![entry@] + records_from(all, i + 1, None)) =~= grown
                                + records_from(all, i + 1, None));
                            seen = grown;
                        }
                        put(&mut entries, entry);
                    },
                    None => {},
                }
            } else if line.len() > 0 {
                current = Some(string_of(line));
            }
            i += 1;
        }
        assert(seen + Seq::<Pair>::empty() =~= seen);
        entries
    }

    /// The hash remembered for `filename`: the hash line behind the first
    /// line that is equal to it.
    pub fn get_hash_fast(&self, filename: &str) -> (r: Option<String>)
        ensures
            match r {
                Some(h) => lookup(self.text_or_empty(), filename@) == Some(h@),
                None => lookup(self.text_or_empty(), filename@) is None,
            },
    {
        let text = self.chars();
        let ls = split_lines(text.as_slice());
        let name = chars_of(filename);
        let ghost all = lines(text@);
        let mut i: usize = 0;
        while i < ls.len()
            invariant
                i <= ls.len(),
                crate::names::rows(ls@) == all,
                name@ == filename@,
                all == lines(self.text_or_empty()),
                lookup_from(all, 0, filename@) == lookup_from(all, i as int, filename@),
            decreases ls.len() - i,
        {
            assert(all[i as int] == ls@[i as int]@);
            if same(ls[i].as_slice(), name.as_slice()) {
                if i + 1 >= ls.len() {
                    return None;
                }
                assert(all[i + 1] == ls@[i + 1]@);
                if hash_line(ls[i + 1].as_slice()) {
                    return Some(payload_of(ls[i + 1].as_slice()));
                }
                i += 2;
            } else {
                i += 1;
            }
        }
        None
    }

    /// The hash remembered for `filename`.
    pub fn get_hash(&self, filename: &str) -> (r: Option<String>)
        ensures
            match r {
                Some(h) => lookup(self.text_or_empty(), filename@) == Some(h@),
                None => lookup(self.text_or_empty(), filename@) is None,
            },
    {
        self.get_hash_fast(filename)
    }

    /// Whether a hash is remembered for `filename`.
    pub fn exists_cache(&self, filename: &str) -> (r: bool)
        ensures
            r == lookup(self.text_or_empty(), filename@) is Some,
    {
        self.get_hash(filename).is_some()
    }

    /// Appends a record without looking at it.
    fn store_hash_internal(&mut self, filename: &str, argon2_hash: &str)
        ensures
            final(self).path() == old(self).path(),
            final(self).text() == Some(
                old(self).text_or_empty() + entry_text(filename@, argon2_hash@),
            ),
    {
        let mut text = self.chars();
        let name = chars_of(filename);
        let hash = chars_of(argon2_hash);
        push_entry(&mut text, name.as_slice(), hash.as_slice());
        self.content = Some(string_of(text.as_slice()));
    }

    /// Remembers `argon2_hash` for `filename` by appending a record; the
    /// file comes to exist if it did not.
    ///
    /// Fails with a `Config` error, and leaves the file as it is, where the
    /// name or the hash is empty or holds a line feed.
    pub fn store_hash(&mut self, filename: &str, argon2_hash: &str) -> (r: Result<
        (),
        OpenCliError,
    >)
        ensures
            final(self).path() == old(self).path(),
            r is Ok <==> storable(filename@) && storable(argon2_hash@),
            r is Ok ==> final(self).text() == Some(
                old(self).text_or_empty() + entry_text(filename@, argon2_hash@),
            ),
            r matches Err(e) ==> e is Config && e.message() == refusal(filename@)
                && final(self).text() == old(self).text(),
    {
        let name = chars_of(filename);
        if !is_storable(name.as_slice()) {
            return Err(
                OpenCliError::config(
                    "store_hash: Invalid filename - must not be empty or contain newlines",
                ),
            );
        }
        let hash = chars_of(argon2_hash);
        if !is_storable(hash.as_slice()) {
            return Err(
                OpenCliError::config(
                    "store_hash: Invalid hash format - must not be empty or contain newlines",
                ),
            );
        }
        self.store_hash_internal(filename, argon2_hash);
        Ok(())
    }

    /// Takes the records of `filename` out of the file and writes the other
    /// records anew, two lines each. A file that does not exist stays so.
    pub fn remove_hash(&mut self, filename: &str)
        ensures
            final(self).path() == old(self).path(),
            match old(self).text() {
                Some(c) => final(self).text() == Some(without(c, filename@)),
                None => final(self).text() is None,
            },
    {
        if self.content.is_none() {
            return ;
        }
        let text = self.chars();
        let ls = split_lines(text.as_slice());
        let name = chars_of(filename);
        let ghost all = lines(text@);
        let mut out: Vec<char> = Vec::new();
        let mut current: Option<Vec<char>> = None;
        let mut skip = false;
        let mut i: usize = 0;
        assert(out@ + kept_from(all, 0, None, false, filename@) =~= kept_from(
            all,
            0,
            None,
            false,
            filename@,
        ));
        while i < ls.len()
            invariant
                i <= ls.len(),
                crate::names::rows(ls@) == all,
                name@ == filename@,
                kept_from(all, 0, None, false, filename@) == out@ + kept_from(
                    all,
                    i as int,
                    match current {
                        Some(c) => Some(c@),
                        None => None,
                    },
                    skip,
                    filename@,
                ),
            decreases ls.len() - i,
        {
            assert(all[i as int] == ls@[i as int]@);
            let line = ls[i].as_slice();
            if skip {
                skip = false;
            } else if hash_line(line) {
                match current.take() {
                    Some(f) => {
                        let ghost before = out@;
                        push_record(&mut out, f.as_slice(), line);
                        assert(before + (record_text(f@, line@) + kept_from(
                            all,
                            i + 1,
                            None,
                            false,
                            filename@,
                        )) =~= out@ + kept_from(all, i + 1, None, false, filename@));
                    },
                    None => {},
                }
            } else if line.len() > 0 {
                if same(line, name.as_slice()) {
                    skip = true;
                    current = None;
                } else {
                    current = Some(slice_of(line, 0, line.len()));
                    assert(line@.subrange(0, line@.len() as int) =~= line@);
                }
            }
            i += 1;
        }
        assert(out@ + Seq::<char>::empty() =~= out@);
        self.content = Some(string_of(out.as_slice()));
    }

    /// Replaces what is remembered for `filename`: takes its records out,
    /// then appends a new one.
    ///
    /// Fails with a `Config` error where the name or the hash is empty or
    /// holds a line feed; the old records are gone then all the same.
    pub fn update_hash(&mut self, filename: &str, new_hash: &str) -> (r: Result<(), OpenCliError>)
        ensures
            final(self).path() == old(self).path(),
            r is Ok <==> storable(filename@) && storable(new_hash@),
            ({
                let removed = match old(self).text() {
                    Some(c) => Some(without(c, filename@)),
                    None => None,
                };
                let base = match removed {
                    Some(c) => c,
                    None => Seq::empty(),
                };
                if r is Ok {
                    final(self).text() == Some(base + entry_text(filename@, new_hash@))
                } else {
                    final(self).text() == removed
                }
            }),
            r matches Err(e) ==> e is Config && e.message() == refusal(filename@),
    {
        self.remove_hash(filename);
        self.store_hash(filename, new_hash)
    }

    /// Appends a record for each of the entries, in their order, without
    /// looking at them; the file comes to exist if it did not.
    pub fn bulk_store(&mut self, entries: &Vec<CacheEntry>)
        ensures
            final(self).path() == old(self).path(),
            final(self).text() == Some(old(self).text_or_empty() + render(pairs_of(entries@))),
    {
        let mut text = self.chars();
        let ghost start = text@;
        let ghost ps = pairs_of(entries@);
        let mut i: usize = 0;
        assert(start + render(ps.take(0)) =~= start);
        while i < entries.len()
            invariant
                i <= entries.len(),
                ps == pairs_of(entries@),
                text@ == start + render(ps.take(i as int)),
            decreases entries.len() - i,
        {
            let name = chars_of(entries[i].filename.as_str());
            let hash = chars_of(entries[i].hash.as_str());
            proof {
                assert(ps.take(i + 1).drop_last() =~= ps.take(i as int));
                assert(ps.take(i + 1).last() == entries@[i as int]@);
                assert(start + (render(ps.take(i as int)) + entry_text(name@, hash@)) =~= (start
                    + render(ps.take(i as int))) + entry_text(name@, hash@));
            }
            push_entry(&mut text, name.as_slice(), hash.as_slice());
            i += 1;
        }
        assert(ps.take(entries.len() as int) =~= ps);
        self.content = Some(string_of(text.as_slice()));
    }

    /// The size of the file in bytes, 0 while it does not exist.
    pub fn get_cache_size(&self) -> (r: usize)
        ensures
            match self.text() {
                Some(c) => r == vstd::utf8::encode_utf8(c).len() as usize,
                None => r == 0,
            },
    {
        match &self.content {
            Some(c) => c.as_str().len(),
            None => 0,
        }
    }

    /// Empties the file. A file that does not exist stays so.
    pub fn clear_cache(&mut self)
        ensures
            final(self).path() == old(self).path(),
            match old(self).text() {
                Some(_) => final(self).text() == Some(Seq::<char>::empty()),
                None => final(self).text() is None,
            },
    {
        if self.content.is_some() {
            self.content = Some(String::new());
        }
    }

    /// Writes the file anew from its records where it is not well formed:
    /// what the tolerant reader finds stays, each name once, and everything
    /// else goes. A well-formed file is left as it is.
    pub fn repair_cache(&mut self)
        ensures
            final(self).path() == old(self).path(),
            if well_formed_from(lines(old(self).text_or_empty()), 0) {
                final(self).text() == old(self).text()
            } else {
                final(self).text() == Some(render(table(old(self).text_or_empty())))
            },
    {
        if !self.find_cache_integrity() {
            let entries = self.load_all_hashes();
            self.clear_cache();
            self.content = None;
            self.bulk_store(&entries);
            assert(Seq::<char>::empty() + render(pairs_of(entries@)) =~= render(
                pairs_of(entries@),
            ));
        }
    }

    /// How many names the cache holds.
    pub fn count_cache(&self) -> (r: usize)
        ensures
            r == table(self.text_or_empty()).len(),
    {
        let entries = self.load_all_hashes();
        entries.len()
    }

    /// The names that the cache holds, in the order in which they first
    /// occur.
    pub fn list_files_cache(&self) -> (r: Vec<String>)
        ensures
            r@.len() == table(self.text_or_empty()).len(),
            forall|i: int| 0 <= i < r@.len() ==> (#[trigger] r@[i])@ == table(
                self.text_or_empty(),
            )[i].0,
    {
        let entries = self.load_all_hashes();
        let mut out: Vec<String> = Vec::new();
        let mut i: usize = 0;
        while i < entries.len()
            invariant
                i <= entries.len(),
                out@.len() == i,
                forall|k: int| 0 <= k < i ==> (#[trigger] out@[k])@ == pairs_of(entries@)[k].0,
            decreases entries.len() - i,
        {
            out.push(entries[i].filename.clone());
            i += 1;
        }
        out
    }

    /// The names that share a hash with another name, by hash.
    pub fn find_duplicate_hashes(&self) -> (r: Vec<DuplicateGroup>)
        ensures
            groups_of(r@, table(self.text_or_empty())),
    {
        let entries = self.load_all_hashes();
        duplicate_groups(&entries)
    }
}

/// The names of the entries with the hash of entry `at`.
fn names_with_hash(entries: &Vec<CacheEntry>, at: usize) -> (r: Vec<String>)
    requires
        at < entries.len(),
    ensures
        crate::names::texts(r@) == files_with(pairs_of(entries@), entries@[at as int].hash@),
{
    let ghost ps = pairs_of(entries@);
    let ghost hash = entries@[at as int].hash@;
    let wanted = chars_of(entries[at].hash.as_str());
    let mut out: Vec<String> = Vec::new();
    let mut i: usize = 0;
    assert(crate::names::texts(out@) =~= files_with(ps.take(0), hash));
    while i < entries.len()
        invariant
            i <= entries.len(),
            at < entries.len(),
            ps == pairs_of(entries@),
            hash == entries@[at as int].hash@,
            wanted@ == hash,
            crate::names::texts(out@) == files_with(ps.take(i as int), hash),
        decreases entries.len() - i,
    {
        let h = chars_of(entries[i].hash.as_str());
        proof {
            assert(ps.take(i + 1).drop_last() =~= ps.take(i as int));
            assert(ps.take(i + 1).last() == entries@[i as int]@);
        }
        if same(h.as_slice(), wanted.as_slice()) {
            let ghost before = crate::names::texts(out@);
            out.push(entries[i].filename.clone());
            assert(crate::names::texts(out@) =~= before.push(entries@[i as int].filename@));
        }
        i += 1;
    }
    assert(ps.take(entries.len() as int) =~= ps);
    out
}

/// Whether no entry before `at` has the hash of entry `at`.
fn is_first_with_hash(entries: &Vec<CacheEntry>, at: usize) -> (r: bool)
    requires
        at < entries.len(),
    ensures
        r == first_with_hash(pairs_of(entries@), at as int),
{
    let wanted = chars_of(entries[at].hash.as_str());
    let mut j: usize = 0;
    while j < at
        invariant
            j <= at < entries.len(),
            wanted@ == entries@[at as int].hash@,
            forall|k: int| 0 <= k < j ==> (#[trigger] pairs_of(entries@)[k]).1 != entries@[at as int].hash@,
        decreases at - j,
    {
        let h = chars_of(entries[j].hash.as_str());
        if same(h.as_slice(), wanted.as_slice()) {
            assert(pairs_of(entries@)[j as int].1 == pairs_of(entries@)[at as int].1);
            return false;
        }
        j += 1;
    }
    true
}

/// The groups of names that share a hash: one group for each hash that more
/// than one entry has.
pub fn duplicate_groups(entries: &Vec<CacheEntry>) -> (r: Vec<DuplicateGroup>)
    ensures
        groups_of(r@, pairs_of(entries@)),
{
    let ghost ps = pairs_of(entries@);
    let mut groups: Vec<DuplicateGroup> = Vec::new();
    let mut i: usize = 0;
    while i < entries.len()
        invariant
            i <= entries.len(),
            ps == pairs_of(entries@),
            groups@.len() == repeated_hashes(ps, i as int).len(),
            forall|k: int|
                0 <= k < groups@.len() ==> (#[trigger] groups@[k]).hash@ == repeated_hashes(
                    ps,
                    i as int,
                )[k] && crate::names::texts(groups@[k].files@) == files_with(
                    ps,
                    repeated_hashes(ps, i as int)[k],
                ),
        decreases entries.len() - i,
    {
        assert(ps[i as int] == entries@[i as int]@);
        if is_first_with_hash(entries, i) {
            let files = names_with_hash(entries, i);
            if files.len() > 1 {
                groups.push(DuplicateGroup { hash: entries[i].hash.clone(), files });
            }
        }
        i += 1;
    }
    groups
}

} // verus!
