//! What the operations of the cache do to one another: a stored hash is found
//! again, a removed one is not, and a file that ends in a file name without
//! its hash is not well formed and loses that name, and nothing else, when it
//! is repaired.

use crate::cache::{
    entry_text, is_hash_line, kept_from, lines, lines_from, lookup, lookup_from, payload,
    record_text, records, records_from, storable, strip_cr, table, tag, well_formed_from, without,
    Pair,
};
use crate::text::{index_of_char, lemma_index_of_char};
use vstd::prelude::*;

verus! {

/// The text is empty or ends with a line feed, so that what is appended to it
/// begins a new line.
pub open spec fn tidy(content: Seq<char>) -> bool {
    content.len() == 0 || content.last() == '\n'
}

/// A text that stays what it is when it is written as a line and read again:
/// it holds no line feed and does not end with a carriage return.
pub open spec fn one_line(text: Seq<char>) -> bool {
    !text.contains('\n') && (text.len() == 0 || text.last() != '\r')
}

/// Every line is one that stays what it is when it is written and read again.
pub open spec fn clean(ls: Seq<Seq<char>>) -> bool {
    forall|i: int| 0 <= i < ls.len() ==> one_line(#[trigger] ls[i])
}

/// The first `c` at or after `from` is found by what stands around it.
proof fn lemma_index_of_char_is(s: Seq<char>, c: char, from: int, at: int)
    requires
        0 <= from <= at <= s.len(),
        forall|k: int| from <= k < at ==> s[k] != c,
        at < s.len() ==> s[at] == c,
    ensures
        index_of_char(s, c, from) == at,
    decreases at - from,
{
    if from < at {
        lemma_index_of_char_is(s, c, from + 1, at);
    }
}

/// Behind a prefix, the lines are those of what follows the prefix.
proof fn lemma_lines_shift(pre: Seq<char>, rest: Seq<char>, i: int)
    requires
        0 <= i <= rest.len(),
    ensures
        lines_from(pre + rest, pre.len() + i) == lines_from(rest, i),
    decreases rest.len() - i,
{
    let s = pre + rest;
    let p = pre.len() as int;
    if i < rest.len() {
        lemma_index_of_char(rest, '\n', i);
        let e = index_of_char(rest, '\n', i);
        assert forall|k: int| p + i <= k < p + e implies s[k] != '\n' by {
            assert(s[k] == rest[k - p]);
        }
        if e < rest.len() {
            assert(s[p + e] == rest[e]);
        }
        lemma_index_of_char_is(s, '\n', p + i, p + e);
        assert(s.subrange(p + i, p + e) =~= rest.subrange(i, e));
        if e < rest.len() {
            lemma_lines_shift(pre, rest, e + 1);
        } else {
            assert(s.subrange(p + i, s.len() as int) =~= rest.subrange(i, rest.len() as int));
        }
    }
}

/// After a tidy text, the lines of what is appended follow the lines of the
/// text.
proof fn lemma_lines_append_from(c: Seq<char>, t: Seq<char>, i: int)
    requires
        tidy(c),
        0 <= i <= c.len(),
    ensures
        lines_from(c + t, i) == lines_from(c, i) + lines(t),
    decreases c.len() - i,
{
    let s = c + t;
    if i == c.len() {
        lemma_lines_shift(c, t, 0);
        assert(lines_from(c, i) =~= Seq::<Seq<char>>::empty());
        assert(lines_from(c, i) + lines(t) =~= lines(t));
    } else {
        lemma_index_of_char(c, '\n', i);
        let e = index_of_char(c, '\n', i);
        assert(e < c.len()) by {
            if e >= c.len() {
                assert(c[c.len() - 1] == '\n');
            }
        }
        assert forall|k: int| i <= k < e implies s[k] != '\n' by {
            assert(s[k] == c[k]);
        }
        assert(s[e] == c[e]);
        lemma_index_of_char_is(s, '\n', i, e);
        assert(s.subrange(i, e) =~= c.subrange(i, e));
        lemma_lines_append_from(c, t, e + 1);
        assert(seq![strip_cr(c.subrange(i, e))] + (lines_from(c, e + 1) + lines(t)) =~= (seq![
            strip_cr(c.subrange(i, e)),
        ] + lines_from(c, e + 1)) + lines(t));
    }
}

/// A line that is written before a text is read as that line, and the lines
/// of the text after it.
proof fn lemma_lines_of_line(l: Seq<char>, rest: Seq<char>)
    requires
        one_line(l),
    ensures
        lines(l + seq!['\n'] + rest) == seq![l] + lines(rest),
{
    let s = l + seq!['\n'] + rest;
    let n = l.len() as int;
    assert forall|k: int| 0 <= k < n implies s[k] != '\n' by {
        assert(s[k] == l[k]);
        assert(l.contains(l[k]));
    }
    assert(s[n] == '\n');
    lemma_index_of_char_is(s, '\n', 0, n);
    assert(s.subrange(0, n) =~= l);
    assert(s =~= (l + seq!['\n']) + rest);
    lemma_lines_shift(l + seq!['\n'], rest, 0);
}

/// The two lines of a record are read as these two lines.
proof fn lemma_lines_of_record(name: Seq<char>, hash_line: Seq<char>, rest: Seq<char>)
    requires
        one_line(name),
        one_line(hash_line),
    ensures
        lines(record_text(name, hash_line) + rest) == seq![name, hash_line] + lines(rest),
{
    let nl = seq!['\n'];
    assert(record_text(name, hash_line) + rest =~= name + nl + (hash_line + nl + rest));
    lemma_lines_of_line(name, hash_line + nl + rest);
    lemma_lines_of_line(hash_line, rest);
    assert(seq![name] + (seq![hash_line] + lines(rest)) =~= seq![name, hash_line] + lines(rest));
}

/// The lines of a text hold no line feed, and hold only what the text
/// holds.
proof fn lemma_lines_are_lines(s: Seq<char>, i: int)
    requires
        0 <= i <= s.len(),
    ensures
        forall|k: int|
            0 <= k < lines_from(s, i).len() ==> !(#[trigger] lines_from(s, i)[k]).contains('\n'),
        forall|k: int, c: char|
            0 <= k < lines_from(s, i).len() && (#[trigger] lines_from(s, i)[k]).contains(c)
                ==> #[trigger] s.contains(c),
    decreases s.len() - i,
{
    if i < s.len() {
        lemma_index_of_char(s, '\n', i);
        let e = index_of_char(s, '\n', i);
        let raw = s.subrange(i, if e >= s.len() {
            s.len() as int
        } else {
            e
        });
        let line = lines_from(s, i)[0];
        assert forall|c: char| line.contains(c) implies s.contains(c) && c != '\n' by {
            let k = choose|k: int| 0 <= k < line.len() && line[k] == c;
            assert(line[k] == raw[k]);
            assert(raw[k] == s[i + k]);
        }
        if e < s.len() {
            lemma_lines_are_lines(s, e + 1);
            let tail = lines_from(s, e + 1);
            assert forall|k: int| 0 <= k < lines_from(s, i).len() implies !(
            #[trigger] lines_from(s, i)[k]).contains('\n') by {
                if k > 0 {
                    assert(lines_from(s, i)[k] == tail[k - 1]);
                }
            }
            assert forall|k: int, c: char|
                0 <= k < lines_from(s, i).len() && (#[trigger] lines_from(s, i)[k]).contains(
                    c,
                ) implies #[trigger] s.contains(c) by {
                if k > 0 {
                    assert(lines_from(s, i)[k] == tail[k - 1]);
                }
            }
        }
    }
}

/// The lines of a text without carriage returns are clean.
proof fn lemma_lines_clean(s: Seq<char>)
    requires
        !s.contains('\r'),
    ensures
        clean(lines(s)),
{
    lemma_lines_are_lines(s, 0);
    assert forall|i: int| 0 <= i < lines(s).len() implies one_line(#[trigger] lines(s)[i]) by {
        let l = lines(s)[i];
        if l.len() > 0 && l.last() == '\r' {
            assert(l.contains('\r'));
        }
    }
}

/// In a well-formed file, a line that is neither empty nor a hash line has a
/// hash line behind it.
proof fn lemma_names_are_paired(ls: Seq<Seq<char>>, k: int)
    requires
        0 <= k,
        well_formed_from(ls, k),
    ensures
        forall|i: int|
            k <= i < ls.len() && (#[trigger] ls[i]).len() > 0 && !is_hash_line(ls[i]) ==> i + 1
                < ls.len() && is_hash_line(ls[i + 1]),
    decreases ls.len() - k,
{
    if k < ls.len() {
        if ls[k].len() == 0 {
            lemma_names_are_paired(ls, k + 1);
        } else {
            lemma_names_are_paired(ls, k + 2);
        }
    }
}

/// Where the search for a name that is no hash line finds nothing in a file
/// whose names are all paired, no line is that name.
proof fn lemma_not_found_is_absent(ls: Seq<Seq<char>>, name: Seq<char>, i: int)
    requires
        0 <= i,
        name.len() > 0,
        !is_hash_line(name),
        forall|j: int|
            0 <= j < ls.len() && (#[trigger] ls[j]).len() > 0 && !is_hash_line(ls[j]) ==> j + 1
                < ls.len() && is_hash_line(ls[j + 1]),
        lookup_from(ls, i, name) is None,
    ensures
        forall|j: int| i <= j < ls.len() ==> #[trigger] ls[j] != name,
    decreases ls.len() - i,
{
    if i < ls.len() {
        if ls[i] == name {
            assert(is_hash_line(ls[i + 1]));
        }
        lemma_not_found_is_absent(ls, name, i + 1);
    }
}

/// Behind lines that do not hold a name, the name and a hash line are found.
proof fn lemma_found_at_end(ls: Seq<Seq<char>>, name: Seq<char>, hash_line: Seq<char>, i: int)
    requires
        0 <= i <= ls.len(),
        is_hash_line(hash_line),
        forall|j: int| i <= j < ls.len() ==> #[trigger] ls[j] != name,
    ensures
        lookup_from(ls + seq![name, hash_line], i, name) == Some(payload(hash_line)),
    decreases ls.len() - i,
{
    let all = ls + seq![name, hash_line];
    if i < ls.len() {
        assert(all[i] == ls[i]);
        lemma_found_at_end(ls, name, hash_line, i + 1);
    } else {
        assert(all[i] == name);
        assert(all[i + 1] == hash_line);
    }
}

/// The hash line of a hash is a hash line, and holds the hash.
proof fn lemma_hash_line(hash: Seq<char>)
    ensures
        is_hash_line(tag() + hash),
        payload(tag() + hash) == hash,
{
    let line = tag() + hash;
    assert(line.subrange(0, tag().len() as int) =~= tag());
    assert(line.subrange(tag().len() as int, line.len() as int) =~= hash);
}

/// A stored hash is found again: in a tidy, well-formed cache that holds
/// nothing for a name, the hash that is stored for the name is the hash that
/// is found for it. Name and hash are on one line each and do not end with a
/// carriage return, and the name is no hash line.
pub proof fn lemma_store_then_get(content: Seq<char>, name: Seq<char>, hash: Seq<char>)
    requires
        tidy(content),
        well_formed_from(lines(content), 0),
        storable(name),
        storable(hash),
        name.last() != '\r',
        hash.last() != '\r',
        !is_hash_line(name),
        lookup(content, name) is None,
    ensures
        lookup(content + entry_text(name, hash), name) == Some(hash),
{
    let ls = lines(content);
    let line = tag() + hash;
    lemma_hash_line(hash);
    assert(one_line(line)) by {
        if line.contains('\n') {
            let k = choose|k: int| 0 <= k < line.len() && line[k] == '\n';
            reveal_strlit("argon2:");
            if k >= tag().len() {
                assert(hash[k - tag().len()] == '\n');
                assert(hash.contains('\n'));
            }
        }
        assert(line.last() == hash.last());
    }
    lemma_lines_append_from(content, entry_text(name, hash), 0);
    lemma_lines_of_record(name, line, Seq::empty());
    assert(record_text(name, line) + Seq::<char>::empty() =~= entry_text(name, hash));
    assert(lines(Seq::<char>::empty()) =~= Seq::<Seq<char>>::empty());
    assert(lines(content + entry_text(name, hash)) =~= ls + seq![name, line]);
    lemma_names_are_paired(ls, 0);
    lemma_not_found_is_absent(ls, name, 0);
    lemma_found_at_end(ls, name, line, 0);
}

/// Behind two lines, the search goes on as in the lines that follow them.
proof fn lemma_lookup_shift(
    first: Seq<char>,
    second: Seq<char>,
    rest: Seq<Seq<char>>,
    name: Seq<char>,
    i: int,
)
    requires
        0 <= i <= rest.len(),
    ensures
        lookup_from(seq![first, second] + rest, i + 2, name) == lookup_from(rest, i, name),
    decreases rest.len() - i,
{
    let all = seq![first, second] + rest;
    if i < rest.len() {
        assert(all[i + 2] == rest[i]);
        lemma_lookup_shift(first, second, rest, name, i + 1);
        if i + 1 < rest.len() {
            assert(all[i + 3] == rest[i + 1]);
            lemma_lookup_shift(first, second, rest, name, i + 2);
        }
    }
}

/// The search passes over the two lines of a record of which neither is the
/// name.
proof fn lemma_lookup_skips_record(
    first: Seq<char>,
    second: Seq<char>,
    rest: Seq<Seq<char>>,
    name: Seq<char>,
)
    requires
        first != name,
        second != name,
    ensures
        lookup_from(seq![first, second] + rest, 0, name) == lookup_from(rest, 0, name),
{
    let all = seq![first, second] + rest;
    assert(all[0] == first && all[1] == second);
    lemma_lookup_shift(first, second, rest, name, 0);
    assert(lookup_from(all, 0, name) == lookup_from(all, 1, name));
    assert(lookup_from(all, 1, name) == lookup_from(all, 2, name));
}

/// What is left after a removal holds nothing for the removed name.
proof fn lemma_kept_has_no_name(
    ls: Seq<Seq<char>>,
    i: int,
    current: Option<Seq<char>>,
    skip: bool,
    name: Seq<char>,
)
    requires
        0 <= i,
        clean(ls),
        !is_hash_line(name),
        current matches Some(f) ==> f != name && one_line(f),
    ensures
        lookup(kept_from(ls, i, current, skip, name), name) is None,
    decreases ls.len() - i,
{
    if i >= ls.len() {
        assert(lines(Seq::<char>::empty()) =~= Seq::<Seq<char>>::empty());
    } else if skip {
        lemma_kept_has_no_name(ls, i + 1, current, false, name);
    } else if is_hash_line(ls[i]) {
        lemma_kept_has_no_name(ls, i + 1, None, false, name);
        match current {
            Some(f) => {
                let rest = kept_from(ls, i + 1, None, false, name);
                lemma_lines_of_record(f, ls[i], rest);
                lemma_lookup_skips_record(f, ls[i], lines(rest), name);
            },
            None => {},
        }
    } else if ls[i].len() > 0 {
        if ls[i] == name {
            lemma_kept_has_no_name(ls, i + 1, None, true, name);
        } else {
            lemma_kept_has_no_name(ls, i + 1, Some(ls[i]), false, name);
        }
    } else {
        lemma_kept_has_no_name(ls, i + 1, current, false, name);
    }
}

/// A removed hash is not found: after the records of a name have been taken
/// out of a cache without carriage returns, nothing is found for the name.
/// The name is no hash line.
pub proof fn lemma_remove_then_get(content: Seq<char>, name: Seq<char>)
    requires
        !content.contains('\r'),
        !is_hash_line(name),
    ensures
        lookup(without(content, name), name) is None,
{
    lemma_lines_clean(content);
    lemma_kept_has_no_name(lines(content), 0, None, false, name);
}

/// With a line that is not empty behind a well-formed file, the file is not
/// well formed.
proof fn lemma_orphan_breaks(ls: Seq<Seq<char>>, orphan: Seq<char>, i: int)
    requires
        0 <= i <= ls.len(),
        well_formed_from(ls, i),
        orphan.len() > 0,
    ensures
        !well_formed_from(ls.push(orphan), i),
    decreases ls.len() - i,
{
    let all = ls.push(orphan);
    if i < ls.len() {
        assert(all[i] == ls[i]);
        if ls[i].len() == 0 {
            lemma_orphan_breaks(ls, orphan, i + 1);
        } else {
            assert(all[i + 1] == ls[i + 1]);
            lemma_orphan_breaks(ls, orphan, i + 2);
        }
    } else {
        assert(all[i] == orphan);
    }
}

/// A line behind a well-formed file adds no record: the tolerant reader has
/// no file name waiting when it comes to it.
proof fn lemma_orphan_adds_nothing(ls: Seq<Seq<char>>, orphan: Seq<char>, i: int)
    requires
        0 <= i <= ls.len(),
        well_formed_from(ls, i),
    ensures
        records_from(ls.push(orphan), i, None) == records_from(ls, i, None),
    decreases ls.len() - i,
{
    let all = ls.push(orphan);
    if i < ls.len() {
        assert(all[i] == ls[i]);
        if ls[i].len() == 0 {
            lemma_orphan_adds_nothing(ls, orphan, i + 1);
            reveal_strlit("argon2:");
        } else {
            assert(all[i + 1] == ls[i + 1]);
            lemma_orphan_adds_nothing(ls, orphan, i + 2);
            if !is_hash_line(ls[i]) {
                assert(records_from(all, i + 1, Some(ls[i])) == seq![(ls[i], payload(ls[i + 1]))]
                    + records_from(all, i + 2, None));
                assert(records_from(ls, i + 1, Some(ls[i])) == seq![(ls[i], payload(ls[i + 1]))]
                    + records_from(ls, i + 2, None));
            } else {
                assert(records_from(all, i + 1, None) == records_from(all, i + 2, None));
                assert(records_from(ls, i + 1, None) == records_from(ls, i + 2, None));
            }
        }
    } else {
        assert(all[i] == orphan);
        assert(records_from(all, i + 1, Some(orphan)) =~= Seq::<Pair>::empty());
        assert(records_from(all, i + 1, None) =~= Seq::<Pair>::empty());
    }
}

/// A file that ends in a file name without its hash is not well formed, and
/// holds the records that it would hold without that name: a repair, which
/// writes the file anew from its records, takes out that name and nothing
/// else. The file before the name is tidy and well formed; the name is on one
/// line and not empty.
pub proof fn lemma_orphan_is_repaired(content: Seq<char>, orphan: Seq<char>)
    requires
        tidy(content),
        well_formed_from(lines(content), 0),
        orphan.len() > 0,
        !orphan.contains('\n'),
    ensures
        !well_formed_from(lines(content + orphan), 0),
        records(content + orphan) == records(content),
        table(content + orphan) == table(content),
{
    let ls = lines(content);
    lemma_lines_append_from(content, orphan, 0);
    assert(lines(orphan) =~= seq![orphan]) by {
        assert forall|k: int| 0 <= k < orphan.len() implies orphan[k] != '\n' by {
            assert(orphan.contains(orphan[k]));
        }
        lemma_index_of_char_is(orphan, '\n', 0, orphan.len() as int);
        assert(orphan.subrange(0, orphan.len() as int) =~= orphan);
    }
    assert(lines(content + orphan) =~= ls.push(orphan));
    lemma_orphan_breaks(ls, orphan, 0);
    lemma_orphan_adds_nothing(ls, orphan, 0);
}

} // verus!
