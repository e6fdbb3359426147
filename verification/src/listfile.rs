use vstd::prelude::*;
use crate::text::{chars_equal, chars_of};

verus! {

/// Unicode `White_Space`, the set that `char::is_whitespace` tests.
pub open spec fn is_white_space(c: char) -> bool {
    let u = c as u32;
    ||| 0x09 <= u <= 0x0D
    ||| u == 0x20
    ||| u == 0x85
    ||| u == 0xA0
    ||| u == 0x1680
    ||| 0x2000 <= u <= 0x200A
    ||| u == 0x2028
    ||| u == 0x2029
    ||| u == 0x202F
    ||| u == 0x205F
    ||| u == 0x3000
}

/// The text with its leading white space removed.
pub open spec fn trim_start(s: Seq<char>) -> Seq<char>
    decreases s.len(),
{
    if s.len() > 0 && is_white_space(s[0]) {
        trim_start(s.drop_first())
    } else {
        s
    }
}

/// A line that counts in a list file: not empty, and not a comment (a line
/// whose first character after leading white space is `#`).
pub open spec fn is_entry(line: Seq<char>) -> bool {
    &&& line.len() > 0
    &&& !(trim_start(line).len() > 0 && trim_start(line)[0] == '#')
}

/// The pieces of a text between `'\n'` characters, in order; a text with
/// `n` newlines has `n + 1` pieces (the empty text has one empty piece).
pub open spec fn pieces(s: Seq<char>) -> Seq<Seq<char>>
    decreases s.len(),
{
    if s.len() == 0 {
        seq![Seq::<char>::empty()]
    } else {
        let p = pieces(s.drop_last());
        if s.last() == '\n' {
            p.push(Seq::<char>::empty())
        } else {
            p.update(p.len() - 1, p.last().push(s.last()))
        }
    }
}

/// The lines of `ps` that are entries, in order.
pub open spec fn keep_entries(ps: Seq<Seq<char>>) -> Seq<Seq<char>>
    decreases ps.len(),
{
    if ps.len() == 0 {
        Seq::<Seq<char>>::empty()
    } else {
        let r = keep_entries(ps.drop_last());
        if is_entry(ps.last()) {
            r.push(ps.last())
        } else {
            r
        }
    }
}

/// The entries of a list file, in order.
pub open spec fn entries(s: Seq<char>) -> Seq<Seq<char>> {
    keep_entries(pieces(s))
}

/// Whether `line` is listed in the file with contents `s`.
pub open spec fn is_listed(s: Seq<char>, line: Seq<char>) -> bool {
    is_entry(line) && pieces(s).contains(line)
}

/// The views of a vector of character vectors.
pub open spec fn char_rows(v: Seq<Vec<char>>) -> Seq<Seq<char>> {
    v.map_values(|r: Vec<char>| r@)
}

pub proof fn lemma_pieces_nonempty(s: Seq<char>)
    ensures
        pieces(s).len() >= 1,
    decreases s.len(),
{
    if s.len() > 0 {
        lemma_pieces_nonempty(s.drop_last());
    }
}

pub proof fn lemma_keep_entries_members(ps: Seq<Seq<char>>, x: Seq<char>)
    ensures
        keep_entries(ps).contains(x) <==> (is_entry(x) && ps.contains(x)),
    decreases ps.len(),
{
    if ps.len() > 0 {
        let init = ps.drop_last();
        lemma_keep_entries_members(init, x);
        assert(ps == init.push(ps.last()));
        let r = keep_entries(init);
        if ps.contains(x) && !init.contains(x) {
            assert(x == ps.last()) by {
                let k = choose|k: int| 0 <= k < ps.len() && ps[k] == x;
                if k < ps.len() - 1 {
                    assert(init[k] == x);
                }
            }
        }
        if init.contains(x) {
            let k = choose|k: int| 0 <= k < init.len() && init[k] == x;
            assert(ps[k] == x);
        }
        if is_entry(ps.last()) {
            let r2 = r.push(ps.last());
            if r2.contains(x) && !r.contains(x) {
                let k = choose|k: int| 0 <= k < r2.len() && r2[k] == x;
                if k < r.len() {
                    assert(r[k] == x);
                }
            }
            if r.contains(x) {
                let k = choose|k: int| 0 <= k < r.len() && r[k] == x;
                assert(r2[k] == x);
            }
            if x == ps.last() {
                assert(r2[r.len() as int] == x);
            }
            if ps.contains(x) {
                assert(ps[ps.len() - 1] == ps.last());
            }
        }
    }
}

/// Whether `c` is Unicode white space (what `char::is_whitespace` tests).
pub fn white_space(c: char) -> (r: bool)
    ensures
        r == is_white_space(c),
{
    let u = c as u32;
    (0x09 <= u && u <= 0x0D) || u == 0x20 || u == 0x85 || u == 0xA0 || u == 0x1680 || (0x2000
        <= u && u <= 0x200A) || u == 0x2028 || u == 0x2029 || u == 0x202F || u == 0x205F || u
        == 0x3000
}

/// Whether a line of a list file counts as an entry.
pub fn entry_line(line: &[char]) -> (r: bool)
    ensures
        r == is_entry(line@),
{
    let n: usize = line.len();
    let mut i: usize = 0;
    assert(line@.skip(0) =~= line@);
    while i < n && white_space(line[i])
        invariant
            n == line.len(),
            0 <= i <= n,
            trim_start(line@) == trim_start(line@.skip(i as int)),
        decreases n - i,
    {
        proof {
            let t = line@.skip(i as int);
            assert(t.len() > 0 && t[0] == line@[i as int]);
            assert(t.drop_first() =~= line@.skip(i as int + 1));
        }
        i = i + 1;
    }
    proof {
        let t = line@.skip(i as int);
        if i < n {
            assert(t[0] == line@[i as int]);
        } else {
            assert(t.len() == 0);
        }
    }
    n > 0 && !(i < n && line[i] == '#')
}

/// The entries of a list file (its lines that are neither empty nor
/// comments), in order.
pub fn list_entries(contents: &str) -> (r: Vec<Vec<char>>)
    ensures
        char_rows(r@) == entries(contents@),
{
    let s = chars_of(contents);
    let n: usize = s.len();
    let mut done: Vec<Vec<char>> = Vec::new();
    let mut current: Vec<char> = Vec::new();
    let mut i: usize = 0;
    proof {
        assert(s@.take(0) =~= Seq::<char>::empty());
        assert(char_rows(done@) =~= Seq::<Seq<char>>::empty());
    }
    while i < n
        invariant
            n == s.len(),
            s@ == contents@,
            0 <= i <= n,
            pieces(s@.take(i as int)).len() >= 1,
            pieces(s@.take(i as int)).last() == current@,
            char_rows(done@) == keep_entries(pieces(s@.take(i as int)).drop_last()),
        decreases n - i,
    {
        let c: char = s[i];
        proof {
            let pre = s@.take(i as int + 1);
            assert(pre.drop_last() =~= s@.take(i as int));
            assert(pre.last() == c);
            lemma_pieces_nonempty(s@.take(i as int));
        }
        if c == '\n' {
            let finished = entry_line(current.as_slice());
            let ghost old_done = done@;
            let ghost p = pieces(s@.take(i as int));
            if finished {
                let line = current;
                done.push(line);
                current = Vec::new();
            } else {
                current = Vec::new();
            }
            proof {
                let p2 = pieces(s@.take(i as int + 1));
                assert(p2 == p.push(Seq::<char>::empty()));
                assert(p2.drop_last() =~= p);
                assert(p.drop_last().push(p.last()) =~= p);
                assert(char_rows(done@) =~= keep_entries(p2.drop_last()));
                assert(p2.last() =~= current@);
            }
        } else {
            let ghost p = pieces(s@.take(i as int));
            current.push(c);
            proof {
                let p2 = pieces(s@.take(i as int + 1));
                assert(p2 == p.update(p.len() - 1, p.last().push(c)));
                assert(p2.drop_last() =~= p.drop_last());
            }
        }
        i = i + 1;
    }
    proof {
        assert(s@.take(n as int) =~= s@);
        lemma_pieces_nonempty(s@);
    }
    let ghost p = pieces(s@);
    if entry_line(current.as_slice()) {
        done.push(current);
    }
    proof {
        assert(p.drop_last().push(p.last()) =~= p);
        assert(char_rows(done@) =~= keep_entries(p));
    }
    done
}

/// Whether `line` is one of the entries of the list file with contents
/// `contents`.
pub fn line_in_file(line: &str, contents: &str) -> (r: bool)
    ensures
        r == is_listed(contents@, line@),
{
    let entries_found = list_entries(contents);
    let wanted = chars_of(line);
    let n: usize = entries_found.len();
    let mut i: usize = 0;
    while i < n
        invariant
            n == entries_found.len(),
            0 <= i <= n,
            char_rows(entries_found@) == entries(contents@),
            wanted@ == line@,
            forall|j: int| 0 <= j < i ==> entries_found@[j]@ != line@,
        decreases n - i,
    {
        if chars_equal(entries_found[i].as_slice(), wanted.as_slice()) {
            proof {
                let rows = char_rows(entries_found@);
                assert(rows[i as int] == line@);
                assert(rows.contains(line@));
                lemma_keep_entries_members(pieces(contents@), line@);
            }
            return true;
        }
        i = i + 1;
    }
    proof {
        let rows = char_rows(entries_found@);
        lemma_keep_entries_members(pieces(contents@), line@);
        if rows.contains(line@) {
            let k = choose|k: int| 0 <= k < rows.len() && rows[k] == line@;
            assert(entries_found@[k]@ == line@);
        }
    }
    false
}

/// A line is listed exactly when it is one of the file's entries.
pub proof fn lemma_listed_iff_entry(s: Seq<char>, line: Seq<char>)
    ensures
        is_listed(s, line) <==> entries(s).contains(line),
{
    lemma_keep_entries_members(pieces(s), line);
}

/// Appending text without a newline extends the last piece of a file.
pub proof fn lemma_pieces_append(a: Seq<char>, b: Seq<char>)
    requires
        !b.contains('\n'),
    ensures
        pieces(a + b) == pieces(a).update(pieces(a).len() - 1, pieces(a).last() + b),
    decreases b.len(),
{
    lemma_pieces_nonempty(a);
    if b.len() == 0 {
        assert(a + b =~= a);
        assert(pieces(a).last() + b =~= pieces(a).last());
        assert(pieces(a).update(pieces(a).len() - 1, pieces(a).last()) =~= pieces(a));
    } else {
        let init = b.drop_last();
        assert(!init.contains('\n')) by {
            if init.contains('\n') {
                let k = choose|k: int| 0 <= k < init.len() && init[k] == '\n';
                assert(b[k] == '\n');
            }
        }
        assert(b.last() != '\n') by {
            assert(b[b.len() - 1] == b.last());
        }
        lemma_pieces_append(a, init);
        assert((a + b).drop_last() =~= a + init);
        assert((a + b).last() == b.last());
        let p = pieces(a + init);
        lemma_pieces_nonempty(a + init);
        assert(pieces(a + b) == p.update(p.len() - 1, p.last().push(b.last())));
        assert((pieces(a).last() + init).push(b.last()) =~= pieces(a).last() + b);
        assert(pieces(a + b) =~= pieces(a).update(pieces(a).len() - 1, pieces(a).last() + b));
    }
}

/// Appending an entry to a file that is empty or ends with a newline
/// lists it.  (Appending to a file whose last line is unterminated merges
/// the two lines instead.)
pub proof fn lemma_appended_entry_is_listed(w: Seq<char>, line: Seq<char>)
    requires
        w.len() == 0 || w.last() == '\n',
        is_entry(line),
        !line.contains('\n'),
    ensures
        is_listed(w + line, line),
{
    lemma_pieces_append(w, line);
    lemma_pieces_nonempty(w);
    let p = pieces(w);
    if w.len() > 0 {
        lemma_pieces_nonempty(w.drop_last());
        assert(p.last() == Seq::<char>::empty());
    } else {
        assert(p.last() == Seq::<char>::empty());
    }
    assert(p.last() + line =~= line);
    let q = pieces(w + line);
    assert(q[q.len() - 1] == line);
}

} // verus!
