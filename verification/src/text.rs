//! Characters, lines and the normal form of a source line.
use vstd::prelude::*;

verus! {

/// The characters that count as white space: the code points with the Unicode
/// property `White_Space`.
pub open spec fn is_space(c: char) -> bool {
    let n = c as u32;
    ||| 0x09 <= n <= 0x0D
    ||| n == 0x20
    ||| n == 0x85
    ||| n == 0xA0
    ||| n == 0x1680
    ||| 0x2000 <= n <= 0x200A
    ||| n == 0x2028
    ||| n == 0x2029
    ||| n == 0x202F
    ||| n == 0x205F
    ||| n == 0x3000
}

/// Tells whether `c` is white space.
pub fn is_whitespace(c: char) -> (r: bool)
    ensures
        r == is_space(c),
{
    let n: u32 = c as u32;
    (0x09 <= n && n <= 0x0D) || n == 0x20 || n == 0x85 || n == 0xA0 || n == 0x1680 || (0x2000 <= n
        && n <= 0x200A) || n == 0x2028 || n == 0x2029 || n == 0x202F || n == 0x205F || n == 0x3000
}

/// The lines of a text: a line feed ends the current line and opens the next, any
/// other character extends the current line. A text of `n` line feeds has `n + 1`
/// lines, the last of which may be empty.
pub open spec fn lines(text: Seq<char>) -> Seq<Seq<char>>
    decreases text.len(),
{
    if text.len() == 0 {
        seq![Seq::<char>::empty()]
    } else {
        let before = lines(text.drop_last());
        if text.last() == '\n' {
            before.push(Seq::<char>::empty())
        } else {
            before.drop_last().push(before.last().push(text.last()))
        }
    }
}

/// The lines of a vector of lines, as sequences of characters.
pub open spec fn lines_view(v: Seq<Vec<char>>) -> Seq<Seq<char>> {
    Seq::new(v.len(), |i: int| v[i]@)
}

/// Every text has at least one line.
pub proof fn lemma_lines_nonempty(text: Seq<char>)
    ensures
        lines(text).len() >= 1,
    decreases text.len(),
{
    if text.len() > 0 {
        lemma_lines_nonempty(text.drop_last());
    }
}

/// Splits a text into its lines.
pub fn split_lines(text: &str) -> (r: Vec<Vec<char>>)
    ensures
        lines_view(r@) == lines(text@),
{
    let mut done: Vec<Vec<char>> = Vec::new();
    let mut current: Vec<char> = Vec::new();
    for c in it: text.chars()
        invariant
            it.seq() == text@,
            lines_view(done@).push(current@) == lines(text@.take(it.index() as int)),
    {
        proof {
            let i = it.index() as int;
            assert(text@.take(i + 1).drop_last() =~= text@.take(i));
            assert(text@.take(i + 1).last() == c);
            lemma_lines_nonempty(text@.take(i));
        }
        let ghost before = lines_view(done@).push(current@);
        if c == '\n' {
            done.push(current);
            current = Vec::new();
            proof {
                assert(lines_view(done@) =~= before);
            }
        } else {
            current.push(c);
            proof {
                assert(lines_view(done@).push(current@) =~= before.drop_last().push(
                    before.last().push(c),
                ));
            }
        }
    }
    done.push(current);
    proof {
        assert(text@.take(text@.len() as int) =~= text@);
        assert(lines_view(done@) =~= lines_view(done@.drop_last()).push(current@));
    }
    done
}

/// Tells whether a comment marker, two slashes, stands at position `i` of `line`.
pub open spec fn is_comment_at(line: Seq<char>, i: int) -> bool {
    0 <= i && i + 1 < line.len() && line[i] == '/' && line[i + 1] == '/'
}

/// The position of the first comment marker of `line` at or after `from`, or the
/// length of `line` where there is none.
pub open spec fn comment_start(line: Seq<char>, from: int) -> int
    decreases line.len() - from,
{
    if from < 0 || from >= line.len() {
        line.len() as int
    } else if is_comment_at(line, from) {
        from
    } else {
        comment_start(line, from + 1)
    }
}

/// The first position in `lo..hi` that holds no white space, or `hi`.
pub open spec fn trim_start(line: Seq<char>, lo: int, hi: int) -> int
    decreases hi - lo,
{
    if 0 <= lo < hi <= line.len() && is_space(line[lo]) {
        trim_start(line, lo + 1, hi)
    } else {
        lo
    }
}

/// The end of the last position in `lo..hi` that holds no white space, or `lo`.
pub open spec fn trim_end(line: Seq<char>, lo: int, hi: int) -> int
    decreases hi - lo,
{
    if 0 <= lo < hi <= line.len() && is_space(line[hi - 1]) {
        trim_end(line, lo, hi - 1)
    } else {
        hi
    }
}

/// The normal form of a source line: what stands before the first comment
/// marker, without the white space around it. It is empty for a blank line and
/// for a line that holds only a comment.
pub open spec fn normalize(line: Seq<char>) -> Seq<char> {
    let end = comment_start(line, 0);
    let lo = trim_start(line, 0, end);
    let hi = trim_end(line, lo, end);
    line.subrange(lo, hi)
}

/// Removes the comment of a source line and the white space around what is left.
pub fn remove_comments(line: &[char]) -> (r: Vec<char>)
    ensures
        r@ == normalize(line@),
{
    let n: usize = line.len();
    let mut end: usize = 0;
    while end < n && !(end + 1 < n && line[end] == '/' && line[end + 1] == '/')
        invariant
            end <= n == line@.len(),
            comment_start(line@, 0) == comment_start(line@, end as int),
        decreases n - end,
    {
        end += 1;
    }
    let mut lo: usize = 0;
    while lo < end && is_whitespace(line[lo])
        invariant
            lo <= end <= n == line@.len(),
            trim_start(line@, 0, end as int) == trim_start(line@, lo as int, end as int),
        decreases end - lo,
    {
        lo += 1;
    }
    let mut hi: usize = end;
    while lo < hi && is_whitespace(line[hi - 1])
        invariant
            lo <= hi <= end <= n == line@.len(),
            trim_end(line@, lo as int, end as int) == trim_end(line@, lo as int, hi as int),
        decreases hi - lo,
    {
        hi -= 1;
    }
    copy_range(line, lo, hi)
}

/// Copies the characters at `lo..hi` of `s` into a vector.
pub fn copy_range(s: &[char], lo: usize, hi: usize) -> (r: Vec<char>)
    requires
        lo <= hi <= s@.len(),
    ensures
        r@ == s@.subrange(lo as int, hi as int),
{
    let mut out: Vec<char> = Vec::new();
    let mut i: usize = lo;
    while i < hi
        invariant
            lo <= i <= hi <= s@.len(),
            out@ == s@.subrange(lo as int, i as int),
        decreases hi - i,
    {
        out.push(s[i]);
        i += 1;
        proof {
            assert(out@ =~= s@.subrange(lo as int, i as int));
        }
    }
    out
}

/// The characters of `s` without the white space among them, in their order.
pub open spec fn without_spaces(s: Seq<char>) -> Seq<char>
    decreases s.len(),
{
    if s.len() == 0 {
        s
    } else if is_space(s.last()) {
        without_spaces(s.drop_last())
    } else {
        without_spaces(s.drop_last()).push(s.last())
    }
}

/// Copies the characters at `lo..hi` of `s` that are no white space.
pub fn strip_spaces(s: &[char], lo: usize, hi: usize) -> (r: Vec<char>)
    requires
        lo <= hi <= s@.len(),
    ensures
        r@ == without_spaces(s@.subrange(lo as int, hi as int)),
{
    let mut out: Vec<char> = Vec::new();
    let mut i: usize = lo;
    proof {
        assert(s@.subrange(lo as int, lo as int) =~= Seq::<char>::empty());
    }
    while i < hi
        invariant
            lo <= i <= hi <= s@.len(),
            out@ == without_spaces(s@.subrange(lo as int, i as int)),
        decreases hi - i,
    {
        proof {
            assert(s@.subrange(lo as int, i + 1).drop_last() =~= s@.subrange(lo as int, i as int));
        }
        let c: char = s[i];
        if !is_whitespace(c) {
            out.push(c);
        }
        i += 1;
    }
    out
}

/// The position of the first `c` in `s` at or after `from`, or the length of `s`
/// where there is none.
pub open spec fn position(s: Seq<char>, c: char, from: int) -> int
    decreases s.len() - from,
{
    if from < 0 || from >= s.len() {
        s.len() as int
    } else if s[from] == c {
        from
    } else {
        position(s, c, from + 1)
    }
}

/// Finds the first `c` in `s` at or after `from`.
pub fn find(s: &[char], c: char, from: usize) -> (r: usize)
    ensures
        r == position(s@, c, from as int),
        from <= r <= s@.len() || (from > s@.len() && r == s@.len()),
{
    let n: usize = s.len();
    if from >= n {
        return n;
    }
    let mut i: usize = from;
    while i < n && s[i] != c
        invariant
            from <= i <= n == s@.len(),
            position(s@, c, from as int) == position(s@, c, i as int),
        decreases n - i,
    {
        i += 1;
    }
    i
}

/// `String::push`: the character is added at the end of the string.
pub assume_specification[ String::push ](s: &mut String, c: char)
    ensures
        final(s)@ == old(s)@.push(c),
;

/// Makes a string of the characters of `s`.
pub fn string_of(s: &[char]) -> (r: String)
    ensures
        r@ == s@,
{
    let mut out = String::new();
    let mut i: usize = 0;
    while i < s.len()
        invariant
            i <= s@.len(),
            out@ == s@.take(i as int),
        decreases s@.len() - i,
    {
        out.push(s[i]);
        i += 1;
        proof {
            assert(out@ =~= s@.take(i as int));
        }
    }
    proof {
        assert(s@.take(s@.len() as int) =~= s@);
    }
    out
}

} // verus!
