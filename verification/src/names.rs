//! Paths of log files and of their backups.
//!
//! A path is parted into the directory it lies in, the stem of its file name
//! and the extension. The directory part keeps its closing `/`, so that the
//! parts put together give the path back, character for character.

use crate::text::{
    decimal_digits, decimal_string, find_last, is_digit, last_index, lemma_decimal_digits,
    lemma_last_index, lemma_last_index_at, lemma_number_of_decimal_digits, number_of, parse_u32,
    to_chars,
};
use vstd::prelude::*;

verus! {

/// Where the file name begins: behind the last `/`, or at the start.
pub open spec fn file_start(path: Seq<char>) -> int {
    last_index(path, '/') + 1
}

/// The directory part of a path: all up to and including the last `/`,
/// empty where the path holds none.
pub open spec fn parent_of(path: Seq<char>) -> Seq<char> {
    path.take(file_start(path))
}

/// The file name: what follows the last `/`.
pub open spec fn file_name_of(path: Seq<char>) -> Seq<char> {
    path.skip(file_start(path))
}

/// A path names a log file if its file name is not empty.
pub open spec fn is_log_path(path: Seq<char>) -> bool {
    file_name_of(path).len() > 0
}

/// The index, within a file name, of the dot between stem and extension: the
/// last dot, unless it is the first or the last character of the name. Where
/// there is no such dot the result is -1.
pub open spec fn ext_dot(name: Seq<char>) -> int {
    let d = last_index(name, '.');
    if 0 < d && d < name.len() - 1 {
        d
    } else {
        -1
    }
}

/// The stem of the file name; the whole file name where it has no extension.
pub open spec fn stem_of(path: Seq<char>) -> Seq<char> {
    let name = file_name_of(path);
    if ext_dot(name) >= 0 {
        name.take(ext_dot(name))
    } else {
        name
    }
}

/// The extension of the file name, without its dot; empty where it has none.
pub open spec fn ext_of(path: Seq<char>) -> Seq<char> {
    let name = file_name_of(path);
    if ext_dot(name) >= 0 {
        name.skip(ext_dot(name) + 1)
    } else {
        Seq::empty()
    }
}

/// The generation that a path's extension gives, where it is a number.
pub open spec fn backup_number(path: Seq<char>) -> Option<nat> {
    number_of(ext_of(path), u32::MAX as nat)
}

/// `base`, a dot, and `n` in decimal.
pub open spec fn numbered(base: Seq<char>, n: nat) -> Seq<char> {
    base + seq!['.'] + decimal_digits(n)
}

/// The path that a file moves to when it is shifted one generation on. A
/// path whose extension is the number `n` moves to number `n + 1` under the
/// same stem, unless that is more than `max_backup`: then it cannot move. Any
/// other path gets `.1` behind it.
pub open spec fn next_backup(path: Seq<char>, max_backup: nat) -> Option<Seq<char>> {
    match backup_number(path) {
        Some(n) => if n + 1 > max_backup {
            None
        } else {
            Some(numbered(parent_of(path) + stem_of(path), n + 1))
        },
        None => Some(numbered(path, 1)),
    }
}

/// What every timed backup of `path` begins with: directory, stem, a dot,
/// the extension and a dot.
pub open spec fn timed_prefix(path: Seq<char>) -> Seq<char> {
    parent_of(path) + stem_of(path) + seq!['.'] + ext_of(path) + seq!['.']
}

/// The timed backup of `path` for the period that `stamp` writes.
pub open spec fn timed_name(path: Seq<char>, stamp: Seq<char>) -> Seq<char> {
    timed_prefix(path) + stamp
}

/// The parts of a log file's path.
pub struct LogNames {
    /// The directory part, with its closing `/`.
    pub parent: String,
    /// The stem of the file name.
    pub name: String,
    /// The extension, without its dot.
    pub ext: String,
}

/// The parts give the path back: directory, stem and, where there is an
/// extension, a dot and the extension.
pub proof fn lemma_names_rebuild(path: Seq<char>)
    ensures
        path == parent_of(path) + stem_of(path) + (if ext_of(path).len() > 0 {
            seq!['.'] + ext_of(path)
        } else {
            Seq::empty()
        }),
        is_log_path(path) ==> stem_of(path).len() > 0,
{
    lemma_last_index(path, '/');
    let name = file_name_of(path);
    lemma_last_index(name, '.');
    assert(path =~= parent_of(path) + name);
    let d = ext_dot(name);
    if d >= 0 {
        assert(name =~= name.take(d) + (seq!['.'] + name.skip(d + 1)));
        assert(path =~= parent_of(path) + name.take(d) + (seq!['.'] + name.skip(d + 1)));
    } else {
        assert(path =~= parent_of(path) + name + Seq::<char>::empty());
    }
}

/// A numbered name parts into its base and its number: the directory is that
/// of the base, the stem is the base's whole file name, and the extension is
/// the number, which reads back as `n`.
pub proof fn lemma_numbered(base: Seq<char>, n: nat)
    requires
        is_log_path(base),
    ensures
        is_log_path(numbered(base, n)),
        parent_of(numbered(base, n)) == parent_of(base),
        stem_of(numbered(base, n)) == file_name_of(base),
        ext_of(numbered(base, n)) == decimal_digits(n),
        parent_of(numbered(base, n)) + stem_of(numbered(base, n)) == base,
        backup_number(numbered(base, n)) == (if n <= u32::MAX {
            Some(n)
        } else {
            None
        }),
        numbered(base, n).len() > base.len(),
{
    let digits = decimal_digits(n);
    let full = numbered(base, n);
    lemma_decimal_digits(n);
    lemma_number_of_decimal_digits(n, u32::MAX as nat);
    lemma_last_index(base, '/');
    let k = last_index(base, '/');
    assert forall|j: int| k < j < full.len() implies full[j] != '/' by {
        if j < base.len() {
            assert(full[j] == base[j]);
        } else if j > base.len() {
            assert(full[j] == digits[j - base.len() - 1]);
            assert(is_digit(digits[j - base.len() - 1]));
        }
    }
    if k >= 0 {
        assert(full[k] == base[k]);
    }
    lemma_last_index_at(full, '/', k);
    let name = file_name_of(full);
    let base_name = file_name_of(base);
    assert(name =~= base_name + seq!['.'] + digits);
    assert(parent_of(full) =~= parent_of(base));
    let d = base_name.len() as int;
    assert(name[d] == '.');
    assert forall|j: int| d < j < name.len() implies name[j] != '.' by {
        assert(name[j] == digits[j - d - 1]);
        assert(is_digit(digits[j - d - 1]));
    }
    lemma_last_index_at(name, '.', d);
    assert(name.take(d) =~= base_name);
    assert(name.skip(d + 1) =~= digits);
    assert(parent_of(base) + base_name =~= base);
}

/// Shifting goes from one numbered name to the next: the first shift of a
/// path without a number gives number 1, and the shift of number `n` gives
/// number `n + 1` on the same base, as long as that is within `max_backup`.
pub proof fn lemma_next_backup_numbered(base: Seq<char>, n: nat, max_backup: nat)
    requires
        is_log_path(base),
        n <= u32::MAX,
    ensures
        next_backup(numbered(base, n), max_backup) == (if n + 1 > max_backup {
            None
        } else {
            Some(numbered(base, n + 1))
        }),
{
    lemma_numbered(base, n);
}

/// Whether `path` names a log file.
pub fn names_file(path: &str) -> (r: bool)
    ensures
        r == is_log_path(path@),
{
    let chars = to_chars(path);
    proof {
        lemma_last_index(path@, '/');
    }
    match find_last(&chars, '/') {
        Some(i) => i + 1 < chars.len(),
        None => chars.len() > 0,
    }
}

/// Parts a log file's path into directory, stem and extension.
pub fn get_log_names(path: &str) -> (r: LogNames)
    requires
        is_log_path(path@),
    ensures
        r.parent@ == parent_of(path@),
        r.name@ == stem_of(path@),
        r.ext@ == ext_of(path@),
        r.name@.len() > 0,
        path@ == r.parent@ + r.name@ + (if r.ext@.len() > 0 {
            seq!['.'] + r.ext@
        } else {
            Seq::empty()
        }),
{
    proof {
        lemma_names_rebuild(path@);
    }
    let chars = to_chars(path);
    let n = chars.len();
    proof {
        lemma_last_index(path@, '/');
        lemma_last_index(path@, '.');
    }
    let start: usize = match find_last(&chars, '/') {
        Some(i) => i + 1,
        None => 0,
    };
    let ghost name = file_name_of(path@);
    // The last dot of the path is the last dot of the file name, if it lies
    // in the file name at all.
    let dot: Option<usize> = match find_last(&chars, '.') {
        Some(i) => if i >= start {
            Some(i - start)
        } else {
            None
        },
        None => None,
    };
    proof {
        let k: int = match dot {
            Some(d) => d as int,
            None => -1,
        };
        assert forall|j: int| k < j < name.len() implies name[j] != '.' by {
            assert(name[j] == path@[j + start]);
        }
        lemma_last_index_at(name, '.', k);
    }
    let parent = String::from_str(path.substring_char(0, start));
    assert(path@.subrange(0, start as int) =~= parent_of(path@));
    match dot {
        Some(d) => {
            if 0 < d && d < n - start - 1 {
                let stem = String::from_str(path.substring_char(start, start + d));
                let ext = String::from_str(path.substring_char(start + d + 1, n));
                assert(path@.subrange(start as int, start + d) =~= stem_of(path@));
                assert(path@.subrange(start + d + 1, n as int) =~= ext_of(path@));
                return LogNames { parent, name: stem, ext };
            }
        },
        None => {},
    }
    let stem = String::from_str(path.substring_char(start, n));
    assert(path@.subrange(start as int, n as int) =~= stem_of(path@));
    let ext = String::new();
    assert(ext@ =~= ext_of(path@));
    LogNames { parent, name: stem, ext }
}

/// The path that `path` moves to when it is shifted one generation on, or
/// `None` where it holds the last generation that is kept.
pub fn next_backup_path(path: &str, max_backup: u32) -> (r: Option<String>)
    requires
        is_log_path(path@),
    ensures
        match r {
            Some(p) => next_backup(path@, max_backup as nat) == Some(p@),
            None => next_backup(path@, max_backup as nat) is None,
        },
{
    let names = get_log_names(path);
    let dot = ".";
    proof {
        reveal_strlit(".");
        assert(dot@ =~= seq!['.']);
    }
    match parse_u32(names.ext.as_str()) {
        Some(n) => {
            if n >= max_backup {
                None
            } else {
                let mut out = names.parent;
                out.append(names.name.as_str());
                out.append(dot);
                let number = decimal_string((n + 1) as u64);
                out.append(number.as_str());
                Some(out)
            }
        },
        None => {
            let mut out = String::from_str(path);
            out.append(dot);
            let number = decimal_string(1);
            out.append(number.as_str());
            Some(out)
        },
    }
}

/// The path of the timed backup of `path` whose period `stamp` writes.
pub fn timed_file_name(path: &str, stamp: &str) -> (r: String)
    requires
        is_log_path(path@),
    ensures
        r@ == timed_name(path@, stamp@),
{
    let names = get_log_names(path);
    let dot = ".";
    proof {
        reveal_strlit(".");
        assert(dot@ =~= seq!['.']);
    }
    let mut out = names.parent;
    out.append(names.name.as_str());
    out.append(dot);
    out.append(names.ext.as_str());
    out.append(dot);
    out.append(stamp);
    out
}

} // verus!
