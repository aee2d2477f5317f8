//! The log history shown on the log page: a bounded buffer of recent
//! lines, restored at start from the log file and its archives.

use vstd::prelude::*;
use std::collections::VecDeque;
use crate::dynamic::strings_view;
use crate::text::{chars_of, has_prefix, push_str, starts_with, str_eq, string_from_chars, trim, trimmed};

verus! {

/// Lines kept in the log history.
pub const MAX_HISTORY_LOGS: usize = 800;

/// The buffer after `message` is appended: the oldest line leaves once
/// the buffer holds more than [`MAX_HISTORY_LOGS`] lines.
pub open spec fn pushed_history(h: Seq<Seq<char>>, message: Seq<char>) -> Seq<Seq<char>> {
    let s = h.push(message);
    if s.len() > MAX_HISTORY_LOGS {
        s.drop_first()
    } else {
        s
    }
}

/// Appends a log line to the history.
pub fn push_history(history: &mut VecDeque<String>, message: String)
    ensures
        strings_view(final(history)@) == pushed_history(strings_view(old(history)@), message@),
{
    let ghost m = message@;
    history.push_back(message);
    proof {
        assert(strings_view(history@) =~= strings_view(old(history)@).push(m));
    }
    if history.len() > MAX_HISTORY_LOGS {
        let ghost before = history@;
        history.pop_front();
        proof {
            assert(strings_view(history@) =~= strings_view(before).drop_first());
        }
    }
}

/// `s` cut at every `\n` (one more piece than there are line breaks).
pub open spec fn split_newlines(s: Seq<char>) -> Seq<Seq<char>>
    decreases s.len(),
{
    if s.len() == 0 {
        seq![Seq::empty()]
    } else {
        let prev = split_newlines(s.drop_last());
        if s.last() == '\n' {
            prev.push(Seq::empty())
        } else {
            prev.update(prev.len() - 1, prev.last().push(s.last()))
        }
    }
}

/// A line ended by `\n` without the `\r` before that `\n`.
pub open spec fn strip_cr(l: Seq<char>) -> Seq<char> {
    if l.len() > 0 && l.last() == '\r' {
        l.drop_last()
    } else {
        l
    }
}

/// `str::lines`: lines end at `\n` or `\r\n`, the ending not included,
/// and a final empty line is not one.
pub open spec fn lines_of(s: Seq<char>) -> Seq<Seq<char>> {
    let pieces = split_newlines(s);
    let ended = pieces.drop_last().map_values(|l: Seq<char>| strip_cr(l));
    if pieces.last().len() == 0 {
        ended
    } else {
        ended.push(pieces.last())
    }
}

/// The lines of a log file that go into the history: those that are not blank.
pub open spec fn kept_lines(lines: Seq<Seq<char>>) -> Seq<Seq<char>>
    decreases lines.len(),
{
    if lines.len() == 0 {
        Seq::empty()
    } else {
        let prev = kept_lines(lines.drop_last());
        if trimmed(lines.last()).len() > 0 {
            prev.push(lines.last())
        } else {
            prev
        }
    }
}

/// The history lines restored from the contents of the log files, in order.
pub open spec fn restored_lines(contents: Seq<Seq<char>>) -> Seq<Seq<char>>
    decreases contents.len(),
{
    if contents.len() == 0 {
        Seq::empty()
    } else {
        restored_lines(contents.drop_last()) + kept_lines(lines_of(contents.last()))
    }
}

/// The last `max` lines of `s`.
pub open spec fn keep_last(s: Seq<Seq<char>>, max: nat) -> Seq<Seq<char>> {
    if s.len() > max {
        s.skip(s.len() - max)
    } else {
        s
    }
}

proof fn lemma_split_nonempty(s: Seq<char>)
    ensures
        split_newlines(s).len() >= 1,
    decreases s.len(),
{
    if s.len() > 0 {
        lemma_split_nonempty(s.drop_last());
    }
}

/// The lines of a text, as `str::lines` gives them.
pub fn text_lines(s: &str) -> (r: Vec<String>)
    ensures
        strings_view(r@) == lines_of(s@),
{
    let v = chars_of(s);
    let n = v.len();
    let mut done: Vec<String> = Vec::new();
    let mut cur: Vec<char> = Vec::new();
    proof {
        assert(v@.take(0) =~= Seq::<char>::empty());
        assert(strings_view(done@) =~= Seq::<Seq<char>>::empty());
    }
    for i in 0..n
        invariant
            n == v@.len(),
            v@ == s@,
            split_newlines(v@.take(i as int)).len() >= 1,
            strings_view(done@) == split_newlines(v@.take(i as int)).drop_last().map_values(
                |l: Seq<char>| strip_cr(l),
            ),
            cur@ == split_newlines(v@.take(i as int)).last(),
    {
        let ghost prev = split_newlines(v@.take(i as int));
        proof {
            assert(v@.take(i + 1).drop_last() =~= v@.take(i as int));
            assert(v@.take(i + 1).last() == v@[i as int]);
            lemma_split_nonempty(v@.take(i + 1));
        }
        if v[i] == '\n' {
            let mut line = cur;
            if line.len() > 0 && line[line.len() - 1] == '\r' {
                line.pop();
            }
            let ghost before = done@;
            done.push(string_from_chars(&line));
            proof {
                assert(strings_view(done@) =~= strings_view(before).push(strip_cr(prev.last())));
                assert(prev.push(Seq::<char>::empty()).drop_last() =~= prev);
                assert(prev.drop_last().map_values(|l: Seq<char>| strip_cr(l)).push(
                    strip_cr(prev.last()),
                ) =~= prev.map_values(|l: Seq<char>| strip_cr(l)));
            }
            cur = Vec::new();
            proof {
                assert(cur@ =~= Seq::<char>::empty());
            }
        } else {
            cur.push(v[i]);
            proof {
                let next = prev.update(prev.len() - 1, prev.last().push(v@[i as int]));
                assert(next.drop_last() =~= prev.drop_last());
            }
        }
    }
    proof {
        assert(v@.take(n as int) =~= v@);
    }
    if cur.len() > 0 {
        let ghost before = done@;
        done.push(string_from_chars(&cur));
        proof {
            assert(strings_view(done@) =~= strings_view(before).push(cur@));
        }
    } else {
        proof {
            assert(cur@ =~= Seq::<char>::empty());
        }
    }
    done
}

/// Restores the history from the contents of the log files (the current
/// file and its archives, oldest first): every line that is not blank is
/// appended, then only the last `max` lines are kept.
pub fn load_history(history: &mut VecDeque<String>, contents: &Vec<String>, max: usize)
    ensures
        strings_view(final(history)@) == keep_last(
            strings_view(old(history)@) + restored_lines(strings_view(contents@)),
            max as nat,
        ),
{
    let ghost start = strings_view(history@);
    let n = contents.len();
    proof {
        assert(strings_view(contents@).take(0) =~= Seq::<Seq<char>>::empty());
        assert(strings_view(history@) =~= start + restored_lines(strings_view(contents@).take(0)));
    }
    for i in 0..n
        invariant
            n == contents@.len(),
            strings_view(history@) == start + restored_lines(strings_view(contents@).take(i as int)),
    {
        let ghost before_file = strings_view(history@);
        proof {
            assert(strings_view(contents@).take(i + 1).drop_last() =~= strings_view(contents@).take(
                i as int,
            ));
            assert(strings_view(contents@).take(i + 1).last() == contents@[i as int]@);
        }
        let lines = text_lines(contents[i].as_str());
        let m = lines.len();
        proof {
            assert(strings_view(lines@).take(0) =~= Seq::<Seq<char>>::empty());
            assert(strings_view(history@) =~= before_file + kept_lines(strings_view(lines@).take(0)));
        }
        for j in 0..m
            invariant
                m == lines@.len(),
                strings_view(history@) == before_file + kept_lines(strings_view(lines@).take(j as int)),
        {
            proof {
                assert(strings_view(lines@).take(j + 1).drop_last() =~= strings_view(lines@).take(
                    j as int,
                ));
                assert(strings_view(lines@).take(j + 1).last() == lines@[j as int]@);
            }
            let t = trim(lines[j].as_str());
            if t.len() > 0 {
                let ghost before = history@;
                history.push_back(lines[j].clone());
                proof {
                    assert(strings_view(history@) =~= strings_view(before).push(lines@[j as int]@));
                }
            }
            proof {
                assert(strings_view(history@) =~= before_file + kept_lines(
                    strings_view(lines@).take(j + 1),
                ));
            }
        }
        proof {
            assert(strings_view(lines@).take(m as int) =~= strings_view(lines@));
            assert(strings_view(history@) =~= start + restored_lines(
                strings_view(contents@).take(i + 1),
            ));
        }
    }
    proof {
        assert(strings_view(contents@).take(n as int) =~= strings_view(contents@));
    }
    let ghost full = strings_view(history@);
    while history.len() > max
        invariant
            full.len() >= strings_view(history@).len(),
            strings_view(history@) == full.skip(full.len() - strings_view(history@).len()),
            strings_view(history@).len() >= max || full.len() <= max,
            full.len() <= max ==> strings_view(history@).len() == full.len(),
            strings_view(history@).len() == history@.len(),
        decreases history@.len(),
    {
        let ghost before = history@;
        history.pop_front();
        proof {
            assert(strings_view(history@) =~= strings_view(before).drop_first());
            assert(strings_view(history@) =~= full.skip(full.len() - strings_view(history@).len()));
        }
    }
    proof {
        if full.len() <= max {
            assert(full.skip(0) =~= full);
        }
    }
}

/// The file name of a path as `std::path::Path::file_name` reads it.
pub uninterp spec fn path_file_name(path: Seq<char>) -> Option<Seq<char>>;

/// `Path::new(path).file_name()`, as text; a path given as text has a
/// text file name.
#[verifier::external_body]
pub(crate) fn file_name_of(path: &str) -> (r: Option<String>)
    ensures
        match r {
            Some(n) => path_file_name(path@) == Some(n@),
            None => path_file_name(path@) is None,
        },
{
    std::path::Path::new(path).file_name().map(|n| n.to_string_lossy().to_string())
}

/// The name of the log file at `path`, `bili-sync.log` when the path has none.
pub fn log_file_name(path: &str) -> (r: String)
    ensures
        r@ == match path_file_name(path@) {
            Some(n) => n,
            None => "bili-sync.log"@,
        },
{
    match file_name_of(path) {
        Some(n) => n,
        None => "bili-sync.log".to_owned(),
    }
}

/// A file of the log directory that belongs to the history: the log file
/// itself, or one of its archives (`{name}.{suffix}`).
pub open spec fn is_history_file(name: Seq<char>, log_name: Seq<char>) -> bool {
    name == log_name || has_prefix(name, log_name + "."@)
}

/// An archive of the log file: `{name}.{suffix}`.
pub open spec fn is_archive_file(name: Seq<char>, log_name: Seq<char>) -> bool {
    has_prefix(name, log_name + "."@)
}

fn has_dot_prefix(name: &str, log_name: &str) -> (r: bool)
    ensures
        r == has_prefix(name@, log_name@ + "."@),
{
    let mut p: Vec<char> = chars_of(log_name);
    push_str(&mut p, ".");
    let ps = string_from_chars(&p);
    starts_with(name, ps.as_str())
}

pub fn history_file(name: &str, log_name: &str) -> (r: bool)
    ensures
        r == is_history_file(name@, log_name@),
{
    str_eq(name, log_name) || has_dot_prefix(name, log_name)
}

pub fn archive_file(name: &str, log_name: &str) -> (r: bool)
    ensures
        r == is_archive_file(name@, log_name@),
{
    has_dot_prefix(name, log_name)
}

/// Archives of the log file kept besides the current file.
pub const LOG_KEEP_ARCHIVES: usize = 7;

/// Of the archive names (in ascending order), the oldest ones to delete so
/// that [`LOG_KEEP_ARCHIVES`] remain.
pub fn archives_to_remove(archives: &Vec<String>) -> (r: Vec<String>)
    ensures
        strings_view(r@) == if archives@.len() > LOG_KEEP_ARCHIVES {
            strings_view(archives@).take(archives@.len() - LOG_KEEP_ARCHIVES)
        } else {
            Seq::empty()
        },
{
    let mut out: Vec<String> = Vec::new();
    let n = archives.len();
    let k: usize = if n > LOG_KEEP_ARCHIVES {
        n - LOG_KEEP_ARCHIVES
    } else {
        0
    };
    for i in 0..k
        invariant
            k <= n,
            n == archives@.len(),
            strings_view(out@) == strings_view(archives@).take(i as int),
    {
        let ghost before = out@;
        out.push(archives[i].clone());
        proof {
            assert(strings_view(out@) =~= strings_view(before).push(archives@[i as int]@));
            assert(strings_view(archives@).take(i + 1) =~= strings_view(archives@).take(i as int).push(
                archives@[i as int]@,
            ));
            assert(strings_view(out@) =~= strings_view(archives@).take(i + 1));
        }
    }
    proof {
        if n <= LOG_KEEP_ARCHIVES {
            assert(strings_view(out@) =~= Seq::<Seq<char>>::empty());
        }
    }
    out
}


/// `a` sorts before `b`: character codes compared in order, a proper
/// prefix first (the order of `String`'s `Ord`).
pub open spec fn chars_lt(a: Seq<char>, b: Seq<char>) -> bool
    decreases a.len(),
{
    if b.len() == 0 {
        false
    } else if a.len() == 0 {
        true
    } else if a[0] != b[0] {
        (a[0] as u32) < (b[0] as u32)
    } else {
        chars_lt(a.drop_first(), b.drop_first())
    }
}

/// Names in ascending order.
pub open spec fn names_sorted(s: Seq<Seq<char>>) -> bool {
    forall|i: int, j: int| 0 <= i < j < s.len() ==> !chars_lt(#[trigger] s[j], #[trigger] s[i])
}

proof fn lemma_chars_lt_transitive(a: Seq<char>, b: Seq<char>, c: Seq<char>)
    requires
        chars_lt(a, b),
        chars_lt(b, c),
    ensures
        chars_lt(a, c),
    decreases a.len(),
{
    if a.len() > 0 && a[0] == b[0] && b[0] == c[0] {
        lemma_chars_lt_transitive(a.drop_first(), b.drop_first(), c.drop_first());
    }
}

fn lt_chars(a: &Vec<char>, b: &Vec<char>) -> (r: bool)
    ensures
        r == chars_lt(a@, b@),
{
    let n = a.len();
    let m = b.len();
    let mut i: usize = 0;
    proof {
        assert(a@.skip(0) =~= a@);
        assert(b@.skip(0) =~= b@);
    }
    while i < n && i < m && a[i] == b[i]
        invariant
            n == a@.len(),
            m == b@.len(),
            i <= n,
            i <= m,
            chars_lt(a@, b@) == chars_lt(a@.skip(i as int), b@.skip(i as int)),
        decreases n - i,
    {
        proof {
            assert(a@.skip(i as int).drop_first() =~= a@.skip(i + 1));
            assert(b@.skip(i as int).drop_first() =~= b@.skip(i + 1));
        }
        i = i + 1;
    }
    if i == m {
        false
    } else if i == n {
        true
    } else {
        (a[i] as u32) < (b[i] as u32)
    }
}

/// The names of the log directory that are history files, in directory order.
pub open spec fn history_names(names: Seq<Seq<char>>, log_name: Seq<char>, archives_only: bool) -> Seq<
    Seq<char>,
>
    decreases names.len(),
{
    if names.len() == 0 {
        Seq::empty()
    } else {
        let prev = history_names(names.drop_last(), log_name, archives_only);
        let keep = if archives_only {
            is_archive_file(names.last(), log_name)
        } else {
            is_history_file(names.last(), log_name)
        };
        if keep {
            prev.push(names.last())
        } else {
            prev
        }
    }
}

fn insert_sorted(out: &mut Vec<String>, keys: &mut Vec<Vec<char>>, x: String)
    requires
        old(out)@.len() == old(keys)@.len(),
        forall|k: int| 0 <= k < old(keys)@.len() ==> #[trigger] old(keys)@[k]@ == old(out)@[k]@,
        names_sorted(strings_view(old(out)@)),
    ensures
        final(out)@.len() == final(keys)@.len(),
        forall|k: int| 0 <= k < final(keys)@.len() ==> #[trigger] final(keys)@[k]@ == final(out)@[k]@,
        names_sorted(strings_view(final(out)@)),
        strings_view(final(out)@).to_multiset() == strings_view(old(out)@).to_multiset().insert(x@),
{
    let xk = chars_of(x.as_str());
    let n = out.len();
    let mut p: usize = 0;
    while p < n && !lt_chars(&xk, &keys[p])
        invariant
            n == out@.len(),
            n == keys@.len(),
            p <= n,
            xk@ == x@,
            forall|k: int| 0 <= k < keys@.len() ==> #[trigger] keys@[k]@ == out@[k]@,
            forall|k: int| 0 <= k < p ==> !chars_lt(xk@, #[trigger] out@[k]@),
        decreases n - p,
    {
        p = p + 1;
    }
    let ghost old_view = strings_view(out@);
    proof {
        broadcast use vstd::seq_lib::to_multiset_insert;

        assert(strings_view(out@.insert(p as int, x)) =~= old_view.insert(p as int, x@));
        assert(old_view.insert(p as int, x@).to_multiset() == old_view.to_multiset().insert(x@));
        let nv = old_view.insert(p as int, x@);
        assert forall|i: int, j: int| 0 <= i < j < nv.len() implies !chars_lt(
            #[trigger] nv[j],
            #[trigger] nv[i],
        ) by {
            if j < p {
                assert(nv[i] == old_view[i] && nv[j] == old_view[j]);
            } else if j == p {
                assert(nv[i] == old_view[i]);
            } else if i == p {
                // x < out[p] <= out[j - 1]
                assert(nv[j] == old_view[j - 1]);
                assert(chars_lt(x@, old_view[p as int]));
                if chars_lt(old_view[j - 1], x@) {
                    if j - 1 > p {
                        lemma_chars_lt_transitive(old_view[j - 1], x@, old_view[p as int]);
                    } else {
                        lemma_chars_lt_transitive(x@, old_view[p as int], x@);
                        lemma_chars_lt_irreflexive(x@);
                    }
                }
            } else if i < p {
                assert(nv[i] == old_view[i] && nv[j] == old_view[j - 1]);
            } else {
                assert(nv[i] == old_view[i - 1] && nv[j] == old_view[j - 1]);
            }
        }
    }
    let xk2 = chars_of(x.as_str());
    out.insert(p, x);
    keys.insert(p, xk2);
    proof {
        assert(strings_view(out@) =~= old_view.insert(p as int, x@));
    }
}

proof fn lemma_chars_lt_irreflexive(a: Seq<char>)
    ensures
        !chars_lt(a, a),
    decreases a.len(),
{
    if a.len() > 0 {
        lemma_chars_lt_irreflexive(a.drop_first());
    }
}

/// The names of the log directory that are the current log file itself.
pub open spec fn current_names(names: Seq<Seq<char>>, log_name: Seq<char>) -> Seq<Seq<char>>
    decreases names.len(),
{
    if names.len() == 0 {
        Seq::empty()
    } else {
        let prev = current_names(names.drop_last(), log_name);
        if names.last() == log_name {
            prev.push(names.last())
        } else {
            prev
        }
    }
}

/// The archives among the names of the log directory, in ascending order.
fn sorted_archives(names: &Vec<String>, log_name: &str) -> (r: Vec<String>)
    ensures
        names_sorted(strings_view(r@)),
        strings_view(r@).to_multiset() == history_names(strings_view(names@), log_name@, true).to_multiset(),
{
    let mut out: Vec<String> = Vec::new();
    let mut keys: Vec<Vec<char>> = Vec::new();
    let n = names.len();
    proof {
        broadcast use vstd::seq_lib::group_to_multiset_ensures;

        assert(strings_view(names@).take(0) =~= Seq::<Seq<char>>::empty());
        assert(strings_view(out@) =~= Seq::<Seq<char>>::empty());
    }
    for i in 0..n
        invariant
            n == names@.len(),
            out@.len() == keys@.len(),
            forall|k: int| 0 <= k < keys@.len() ==> #[trigger] keys@[k]@ == out@[k]@,
            names_sorted(strings_view(out@)),
            strings_view(out@).to_multiset() == history_names(
                strings_view(names@).take(i as int),
                log_name@,
                true,
            ).to_multiset(),
    {
        let ghost prev = history_names(strings_view(names@).take(i as int), log_name@, true);
        proof {
            assert(strings_view(names@).take(i + 1).drop_last() =~= strings_view(names@).take(
                i as int,
            ));
            assert(strings_view(names@).take(i + 1).last() == names@[i as int]@);
        }
        if archive_file(names[i].as_str(), log_name) {
            insert_sorted(&mut out, &mut keys, names[i].clone());
            proof {
                broadcast use vstd::seq_lib::to_multiset_build;

                assert(prev.push(names@[i as int]@).to_multiset() == prev.to_multiset().insert(
                    names@[i as int]@,
                ));
            }
        }
    }
    proof {
        assert(strings_view(names@).take(n as int) =~= strings_view(names@));
    }
    out
}

/// The history files among the names of the log directory, oldest first:
/// the archives in ascending order (their names end in the date), then
/// the current log file. With `archives_only`, the archives alone.
pub fn sorted_history_files(names: &Vec<String>, log_name: &str, archives_only: bool) -> (r: Vec<
    String,
>)
    ensures
        ({
            let archives = history_names(strings_view(names@), log_name@, true);
            let k = archives.len() as int;
            &&& strings_view(r@).len() == k + if archives_only {
                0
            } else {
                current_names(strings_view(names@), log_name@).len()
            }
            &&& names_sorted(strings_view(r@).take(k))
            &&& strings_view(r@).take(k).to_multiset() == archives.to_multiset()
            &&& strings_view(r@).skip(k) == if archives_only {
                Seq::<Seq<char>>::empty()
            } else {
                current_names(strings_view(names@), log_name@)
            }
        }),
{
    let mut out = sorted_archives(names, log_name);
    let ghost archives = history_names(strings_view(names@), log_name@, true);
    let ghost k = strings_view(out@).len() as int;
    proof {
        broadcast use vstd::seq_lib::group_to_multiset_ensures;

        assert(strings_view(out@).to_multiset().len() == strings_view(out@).len());
        assert(archives.to_multiset().len() == archives.len());
        assert(k == archives.len());
        assert(strings_view(out@).take(k) =~= strings_view(out@));
        assert(strings_view(out@).skip(k) =~= Seq::<Seq<char>>::empty());
    }
    if archives_only {
        return out;
    }
    let n = names.len();
    proof {
        assert(strings_view(names@).take(0) =~= Seq::<Seq<char>>::empty());
    }
    for i in 0..n
        invariant
            n == names@.len(),
            k == archives.len(),
            strings_view(out@).len() >= k,
            names_sorted(strings_view(out@).take(k)),
            strings_view(out@).take(k).to_multiset() == archives.to_multiset(),
            strings_view(out@).skip(k) == current_names(strings_view(names@).take(i as int), log_name@),
    {
        proof {
            assert(strings_view(names@).take(i + 1).drop_last() =~= strings_view(names@).take(
                i as int,
            ));
            assert(strings_view(names@).take(i + 1).last() == names@[i as int]@);
        }
        if str_eq(names[i].as_str(), log_name) {
            let ghost before = strings_view(out@);
            out.push(names[i].clone());
            proof {
                assert(strings_view(out@) =~= before.push(names@[i as int]@));
                assert(strings_view(out@).take(k) =~= before.take(k));
                assert(strings_view(out@).skip(k) =~= before.skip(k).push(names@[i as int]@));
            }
        }
    }
    proof {
        assert(strings_view(names@).take(n as int) =~= strings_view(names@));
    }
    out
}


/// The `k`-th name tried for an archive: `base`, then `base-1`, `base-2`, ...
pub open spec fn archive_candidate(base: Seq<char>, k: nat) -> Seq<char> {
    if k == 0 {
        base
    } else {
        base + "-"@ + crate::text::nat_text(k)
    }
}

proof fn lemma_candidates_distinct(base: Seq<char>, a: nat, b: nat)
    requires
        a != b,
    ensures
        archive_candidate(base, a) != archive_candidate(base, b),
{
    reveal_strlit("-");
    crate::text::lemma_nat_text_len(a);
    crate::text::lemma_nat_text_len(b);
    if a != 0 && b != 0 && archive_candidate(base, a) == archive_candidate(base, b) {
        let la: int = base.len() as int + 1;
        assert(archive_candidate(base, a).skip(la) =~= crate::text::nat_text(a));
        assert(archive_candidate(base, b).skip(la) =~= crate::text::nat_text(b));
        crate::text::lemma_nat_text_injective(a, b);
    }
    if a == 0 && b != 0 {
        assert(archive_candidate(base, a).len() != archive_candidate(base, b).len());
    }
    if b == 0 && a != 0 {
        assert(archive_candidate(base, a).len() != archive_candidate(base, b).len());
    }
}

fn name_taken(existing: &Vec<String>, name: &String) -> (r: bool)
    ensures
        r == strings_view(existing@).contains(name@),
{
    let n = existing.len();
    for i in 0..n
        invariant
            n == existing@.len(),
            forall|k: int| 0 <= k < i ==> #[trigger] existing@[k]@ != name@,
    {
        if existing[i] == *name {
            proof {
                assert(strings_view(existing@)[i as int] == name@);
            }
            return true;
        }
    }
    proof {
        assert forall|k: int| 0 <= k < n implies #[trigger] strings_view(existing@)[k] != name@ by {
            assert(strings_view(existing@)[k] == existing@[k]@);
        }
    }
    false
}

/// The name an archive of the log gets on a day: `{base}`, else the first
/// of `{base}-1`, `{base}-2`, ... that no file of the directory has.
pub fn archive_name(base: &str, existing: &Vec<String>) -> (r: String)
    ensures
        !strings_view(existing@).contains(r@),
        exists|k: nat|
            #![trigger archive_candidate(base@, k)]
            r@ == archive_candidate(base@, k) && forall|j: nat|
                j < k ==> strings_view(existing@).contains(#[trigger] archive_candidate(base@, j)),
{
    let ghost ev = strings_view(existing@);
    let mut candidate: String = base.to_owned();
    let mut seq: usize = 0;
    let ghost mut tried: Set<Seq<char>> = Set::empty();
    let total = existing.len();
    proof {
        ev.lemma_cardinality_of_set();
    }
    while name_taken(existing, &candidate)
        invariant
            ev == strings_view(existing@),
            total == ev.len(),
            ev.to_set().len() <= ev.len(),
            ev.len() == existing@.len(),
            candidate@ == archive_candidate(base@, seq as nat),
            tried.finite(),
            tried.len() == seq,
            tried.subset_of(ev.to_set()),
            forall|s: Seq<char>| #[trigger] tried.contains(s) ==> exists|j: nat| j < seq && s == archive_candidate(base@, j),
            forall|j: nat| j < seq ==> ev.contains(#[trigger] archive_candidate(base@, j)),
            forall|j: nat| j < seq ==> tried.contains(#[trigger] archive_candidate(base@, j)),
        decreases ev.len() - seq,
    {
        proof {
            assert(!tried.contains(candidate@)) by {
                if tried.contains(candidate@) {
                    let j = choose|j: nat| j < seq && candidate@ == archive_candidate(base@, j);
                    lemma_candidates_distinct(base@, j, seq as nat);
                }
            }
            let next = tried.insert(candidate@);
            assert(next.len() == seq + 1);
            assert(next.subset_of(ev.to_set()));
            vstd::set_lib::lemma_len_subset(next, ev.to_set());
            tried = next;
        }
        seq = seq + 1;
        let mut c: Vec<char> = chars_of(base);
        push_str(&mut c, "-");
        crate::text::push_chars(&mut c, &crate::text::usize_text(seq));
        candidate = string_from_chars(&c);
    }
    candidate
}


/// The size at which the log file is rotated even on the same day (10 MiB).
pub const LOG_MAX_SIZE: u64 = 10485760;

/// The log file is rotated before a write when the day changed since it
/// was opened, or when it reached [`LOG_MAX_SIZE`] bytes (a file whose
/// size cannot be read counts as small).
pub fn needs_rotation(opened_date: &String, today: &String, size: Option<u64>) -> (r: bool)
    ensures
        r == !(opened_date@ == today@ && !(size matches Some(n) && n >= LOG_MAX_SIZE)),
{
    let over_size = match size {
        Some(n) => n >= LOG_MAX_SIZE,
        None => false,
    };
    !(*opened_date == *today && !over_size)
}

} // verus!
