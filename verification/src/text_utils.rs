//! The line wrapper: reflows raw lines into lines no wider than a column
//! budget by greedily packing whitespace-delimited words.
use vstd::prelude::*;

verus! {

/// Whitespace as the wrapper understands it: the characters with Unicode's
/// `White_Space` property, the set `char::is_whitespace` recognises.
pub open spec fn is_ws(c: char) -> bool {
    let u = c as u32;
    u == 0x9 || u == 0xA || u == 0xB || u == 0xC || u == 0xD || u == 0x20 || u == 0x85 || u
        == 0xA0 || u == 0x1680 || (0x2000 <= u && u <= 0x200A) || u == 0x2028 || u == 0x2029 || u
        == 0x202F || u == 0x205F || u == 0x3000
}

/// Executable test for [`is_ws`].
pub fn is_ws_char(c: char) -> (r: bool)
    ensures
        r == is_ws(c),
{
    let u = c as u32;
    u == 0x9 || u == 0xA || u == 0xB || u == 0xC || u == 0xD || u == 0x20 || u == 0x85 || u
        == 0xA0 || u == 0x1680 || (0x2000 <= u && u <= 0x200A) || u == 0x2028 || u == 0x2029 || u
        == 0x202F || u == 0x205F || u == 0x3000
}

/// Length of the maximal leading run of non-whitespace characters.
pub open spec fn word_len(s: Seq<char>) -> nat
    decreases s.len(),
{
    if s.len() == 0 || is_ws(s[0]) {
        0
    } else {
        1 + word_len(s.skip(1))
    }
}

/// The whitespace-delimited words of a line, in order.
pub open spec fn split_ws(s: Seq<char>) -> Seq<Seq<char>>
    decreases s.len(),
    via split_ws_decreases
{
    if s.len() == 0 {
        Seq::empty()
    } else if is_ws(s[0]) {
        split_ws(s.skip(1))
    } else {
        seq![s.take(word_len(s) as int)] + split_ws(s.skip(word_len(s) as int))
    }
}

#[via_fn]
proof fn split_ws_decreases(s: Seq<char>) {
    if s.len() != 0 && !is_ws(s[0]) {
        lemma_word_len_bound(s);
        assert(word_len(s) >= 1);
    }
}

proof fn lemma_word_len_bound(s: Seq<char>)
    ensures
        word_len(s) <= s.len(),
        forall|k: int| 0 <= k < word_len(s) ==> !is_ws(s[k]),
        word_len(s) < s.len() ==> is_ws(s[word_len(s) as int]),
    decreases s.len(),
{
    if s.len() == 0 || is_ws(s[0]) {
    } else {
        lemma_word_len_bound(s.skip(1));
        assert forall|k: int| 0 <= k < word_len(s) implies !is_ws(s[k]) by {
            if k > 0 {
                assert(!is_ws(s.skip(1)[k - 1]));
            }
        }
    }
}

/// A scan that saw `k` leading non-whitespace characters followed by the end
/// of the line or a whitespace character has found the first word's length.
proof fn lemma_word_len_is(s: Seq<char>, k: int)
    requires
        0 <= k <= s.len(),
        forall|j: int| 0 <= j < k ==> !is_ws(s[j]),
        k == s.len() || is_ws(s[k]),
    ensures
        word_len(s) == k,
    decreases k,
{
    if k == 0 {
    } else {
        assert(!is_ws(s[0]));
        lemma_word_len_is(s.skip(1), k - 1);
    }
}

/// Width the greedy accumulator charges for a line under construction:
/// each word costs its length plus one trailing space.
pub open spec fn packed_width(ws: Seq<Seq<char>>) -> nat
    decreases ws.len(),
{
    if ws.len() == 0 {
        0
    } else {
        packed_width(ws.drop_last()) + ws.last().len() + 1
    }
}

/// The words joined by single spaces, with no trailing space: the text of a
/// completed output line.
pub open spec fn join_words(ws: Seq<Seq<char>>) -> Seq<char>
    decreases ws.len(),
{
    if ws.len() == 0 {
        Seq::empty()
    } else if ws.len() == 1 {
        ws[0]
    } else {
        join_words(ws.drop_last()) + seq![' '] + ws.last()
    }
}

/// Greedy packing of `words` into lines of at most `w` columns, continuing
/// from the accumulated words `cur`.  A word that does not fit flushes the
/// accumulator first (even when the accumulator is empty); the final
/// accumulator is always flushed, so at least one line comes out.
pub open spec fn pack_words(words: Seq<Seq<char>>, w: nat, cur: Seq<Seq<char>>) -> Seq<Seq<char>>
    decreases words.len(),
{
    if words.len() == 0 {
        seq![join_words(cur)]
    } else if packed_width(cur) + words[0].len() > w {
        seq![join_words(cur)] + pack_words(words.skip(1), w, seq![words[0]])
    } else {
        pack_words(words.skip(1), w, cur.push(words[0]))
    }
}

/// What wrapping does to one source line.
pub open spec fn fold_line(line: Seq<char>, w: nat) -> Seq<Seq<char>> {
    pack_words(split_ws(line), w, Seq::empty())
}

/// What wrapping does to a whole document: each source line is wrapped
/// independently and the groups are concatenated in order.
pub open spec fn fold_lines(lines: Seq<Seq<char>>, w: nat) -> Seq<Seq<char>>
    decreases lines.len(),
{
    if lines.len() == 0 {
        Seq::empty()
    } else {
        fold_line(lines[0], w) + fold_lines(lines.skip(1), w)
    }
}

proof fn lemma_packed_width_push(ws: Seq<Seq<char>>, x: Seq<char>)
    ensures
        packed_width(ws.push(x)) == packed_width(ws) + x.len() + 1,
{
    assert(ws.push(x).drop_last() =~= ws);
}

proof fn lemma_join_words_push(ws: Seq<Seq<char>>, x: Seq<char>)
    ensures
        ws.len() == 0 ==> join_words(ws.push(x)) == x,
        ws.len() > 0 ==> join_words(ws.push(x)) == join_words(ws) + seq![' '] + x,
{
    assert(ws.push(x).drop_last() =~= ws);
    if ws.len() == 0 {
        assert(join_words(ws.push(x)) == ws.push(x)[0]);
    }
}

/// A completed line is one space shorter than the width the accumulator
/// charged for it, except that an empty accumulator yields an empty line.
proof fn lemma_join_words_len(ws: Seq<Seq<char>>)
    ensures
        ws.len() == 0 ==> join_words(ws).len() == 0,
        ws.len() > 0 ==> packed_width(ws) == join_words(ws).len() + 1,
    decreases ws.len(),
{
    if ws.len() == 1 {
        assert(ws.drop_last().len() == 0);
        assert(packed_width(ws.drop_last()) == 0);
    } else if ws.len() > 1 {
        lemma_join_words_len(ws.drop_last());
    }
}

/// Packs the words of one source line into lines of at most `w` columns.
fn pack_line(words: &Vec<String>, w: u16) -> (out: Vec<String>)
    ensures
        out.deep_view() == pack_words(words.deep_view(), w as nat, Seq::empty()),
{
    let wu: usize = w as usize;
    let mut out: Vec<String> = Vec::new();
    let mut cur = String::new();
    let mut pw: usize = 0;
    let ghost all = words.deep_view();
    let ghost mut curw: Seq<Seq<char>> = Seq::empty();
    let mut idx: usize = 0;
    proof {
        assert(out.deep_view() =~= Seq::<Seq<char>>::empty());
        assert(all.skip(0) =~= all);
    }
    while idx < words.len()
        invariant
            wu == w,
            idx <= words.len(),
            all == words.deep_view(),
            cur@ == join_words(curw),
            packed_width(curw) > usize::MAX ==> pw == usize::MAX,
            packed_width(curw) <= usize::MAX ==> pw == packed_width(curw),
            pack_words(all, w as nat, Seq::empty()) == out.deep_view() + pack_words(
                all.skip(idx as int),
                w as nat,
                curw,
            ),
        decreases words.len() - idx,
    {
        let word: &String = &words[idx];
        let wl = word.as_str().unicode_len();
        proof {
            assert(all.skip(idx as int)[0] == all[idx as int]);
            assert(all[idx as int] == word@);
            assert(all.skip(idx as int).skip(1) =~= all.skip(idx + 1));
        }
        let over: bool = if pw > wu || wl > wu {
            true
        } else {
            pw + wl > wu
        };
        assert(over == (packed_width(curw) + word@.len() > w as nat));
        if over {
            let ghost before = out.deep_view();
            let ghost oldcurw = curw;
            out.push(cur);
            proof {
                assert(out.deep_view() =~= before.push(join_words(oldcurw)));
                assert(before.push(join_words(oldcurw)) =~= before + seq![join_words(oldcurw)]);
            }
            cur = word.clone();
            pw = if wl > usize::MAX - 1 {
                usize::MAX
            } else {
                wl + 1
            };
            proof {
                curw = seq![word@];
                assert(curw.drop_last() =~= Seq::<Seq<char>>::empty());
                assert(join_words(curw) == word@);
                assert(packed_width(curw) == word@.len() + 1);
                assert(pack_words(all.skip(idx as int), w as nat, oldcurw) == seq![
                    join_words(oldcurw),
                ] + pack_words(all.skip(idx + 1), w as nat, curw));
                assert(out.deep_view() + pack_words(all.skip(idx + 1), w as nat, curw)
                    =~= before + (seq![join_words(oldcurw)] + pack_words(
                    all.skip(idx + 1),
                    w as nat,
                    curw,
                )));
            }
        } else {
            proof {
                lemma_join_words_push(curw, word@);
                lemma_packed_width_push(curw, word@);
                lemma_join_words_len(curw);
            }
            if pw == 0 {
                cur = word.clone();
            } else {
                cur.append(" ");
                cur.append(word.as_str());
                proof {
                    reveal_strlit(" ");
                    assert(" "@ =~= seq![' ']);
                }
            }
            pw = if pw > usize::MAX - 1 - wl {
                usize::MAX
            } else {
                pw + wl + 1
            };
            proof {
                curw = curw.push(word@);
            }
        }
        idx = idx + 1;
    }
    proof {
        assert(all.skip(words.len() as int) =~= Seq::<Seq<char>>::empty());
    }
    let ghost before = out.deep_view();
    out.push(cur);
    proof {
        assert(out.deep_view() =~= before.push(join_words(curw)));
        assert(before.push(join_words(curw)) =~= before + seq![join_words(curw)]);
    }
    out
}

/// Splits a line into its whitespace-delimited words.
pub fn split_whitespace_words(line: &str) -> (words: Vec<String>)
    ensures
        words.deep_view() == split_ws(line@),
{
    let n = line.unicode_len();
    let mut words: Vec<String> = Vec::new();
    let mut i: usize = 0;
    proof {
        assert(words.deep_view() =~= Seq::<Seq<char>>::empty());
        assert(line@.skip(0) =~= line@);
    }
    while i < n
        invariant
            n == line@.len(),
            i <= n,
            split_ws(line@) == words.deep_view() + split_ws(line@.skip(i as int)),
        decreases n - i,
    {
        let c = line.get_char(i);
        if is_ws_char(c) {
            proof {
                assert(line@.skip(i as int).skip(1) =~= line@.skip(i + 1));
            }
            i = i + 1;
        } else {
            let mut j: usize = i + 1;
            while j < n && !is_ws_char(line.get_char(j))
                invariant
                    n == line@.len(),
                    i < j <= n,
                    forall|k: int| i <= k < j ==> !is_ws(line@[k]),
                decreases n - j,
            {
                j = j + 1;
            }
            let w = line.substring_char(i, j).to_owned();
            proof {
                let t = line@.skip(i as int);
                assert forall|p: int| 0 <= p < j - i implies !is_ws(t[p]) by {
                    assert(t[p] == line@[i + p]);
                }
                if j < n {
                    assert(is_ws(t[j - i]));
                }
                lemma_word_len_is(t, j - i);
                assert(t.take(j - i) =~= line@.subrange(i as int, j as int));
                assert(t.skip(j - i) =~= line@.skip(j as int));
                assert(words.deep_view().push(w@) =~= words.deep_view() + seq![w@]);
            }
            let ghost before = words.deep_view();
            words.push(w);
            proof {
                assert(words.deep_view() =~= before.push(w@));
            }
            i = j;
        }
    }
    proof {
        assert(line@.skip(n as int) =~= Seq::<char>::empty());
        assert(words.deep_view() =~= words.deep_view() + split_ws(line@.skip(n as int)));
    }
    words
}

/// Length of the prefix before the first line feed.
pub open spec fn line_break(s: Seq<char>) -> nat
    decreases s.len(),
{
    if s.len() == 0 || s[0] == '\n' {
        0
    } else {
        1 + line_break(s.skip(1))
    }
}

/// A line with one trailing carriage return removed, as a `\r\n` line
/// ending leaves it.
pub open spec fn strip_cr(l: Seq<char>) -> Seq<char> {
    if l.len() > 0 && l.last() == '\r' {
        l.drop_last()
    } else {
        l
    }
}

/// The lines of a text: split at line feeds, each stripped of the carriage
/// return of a `\r\n` ending; a trailing line terminator opens no further
/// line, and a final line without one is kept whole (a bare `\r` there is
/// no line ending).
pub open spec fn split_lines(s: Seq<char>) -> Seq<Seq<char>>
    decreases s.len(),
    via split_lines_decreases
{
    if s.len() == 0 {
        Seq::empty()
    } else if line_break(s) == s.len() {
        seq![s]
    } else {
        seq![strip_cr(s.take(line_break(s) as int))] + split_lines(s.skip(line_break(s) as int + 1))
    }
}

proof fn lemma_line_break_bound(s: Seq<char>)
    ensures
        line_break(s) <= s.len(),
        forall|k: int| 0 <= k < line_break(s) ==> s[k] != '\n',
        line_break(s) < s.len() ==> s[line_break(s) as int] == '\n',
    decreases s.len(),
{
    if s.len() == 0 || s[0] == '\n' {
    } else {
        lemma_line_break_bound(s.skip(1));
        assert forall|k: int| 0 <= k < line_break(s) implies s[k] != '\n' by {
            if k > 0 {
                assert(s.skip(1)[k - 1] != '\n');
            }
        }
    }
}

#[via_fn]
proof fn split_lines_decreases(s: Seq<char>) {
    lemma_line_break_bound(s);
}

/// A scan that saw `k` characters other than a line feed followed by the
/// end of the text or a line feed has found the first break.
proof fn lemma_line_break_is(s: Seq<char>, k: int)
    requires
        0 <= k <= s.len(),
        forall|j: int| 0 <= j < k ==> s[j] != '\n',
        k == s.len() || s[k] == '\n',
    ensures
        line_break(s) == k,
    decreases k,
{
    if k == 0 {
    } else {
        lemma_line_break_is(s.skip(1), k - 1);
    }
}

/// Splits a text into its lines, as [`split_lines`] describes.
pub fn split_lines_vec(text: &str) -> (lines: Vec<String>)
    ensures
        lines.deep_view() == split_lines(text@),
{
    let n = text.unicode_len();
    let mut lines: Vec<String> = Vec::new();
    let mut i: usize = 0;
    proof {
        assert(lines.deep_view() =~= Seq::<Seq<char>>::empty());
        assert(text@.skip(0) =~= text@);
    }
    while i < n
        invariant
            n == text@.len(),
            i <= n,
            split_lines(text@) == lines.deep_view() + split_lines(text@.skip(i as int)),
        decreases n - i,
    {
        let mut j: usize = i;
        while j < n && text.get_char(j) != '\n'
            invariant
                n == text@.len(),
                i <= j <= n,
                forall|k: int| i <= k < j ==> text@[k] != '\n',
            decreases n - j,
        {
            j = j + 1;
        }
        let seg: String = if j < n && j > i && text.get_char(j - 1) == '\r' {
            text.substring_char(i, j - 1).to_owned()
        } else {
            text.substring_char(i, j).to_owned()
        };
        proof {
            let t = text@.skip(i as int);
            assert forall|p: int| 0 <= p < j - i implies t[p] != '\n' by {
                assert(t[p] == text@[i + p]);
            }
            if j < n {
                assert(t[j - i] == text@[j as int]);
            }
            lemma_line_break_is(t, j - i);
            assert(t.take(j - i) =~= text@.subrange(i as int, j as int));
            if j == n {
                assert(t.take(j - i) =~= t);
                assert(seg@ == t);
            } else {
                let full = text@.subrange(i as int, j as int);
                if j > i && text@[j - 1] == '\r' {
                    assert(full.last() == '\r');
                    assert(full.drop_last() =~= text@.subrange(i as int, j - 1));
                    assert(seg@ == strip_cr(full));
                } else {
                    assert(seg@ == strip_cr(full));
                }
            }
        }
        let ghost before = lines.deep_view();
        lines.push(seg);
        proof {
            assert(lines.deep_view() =~= before.push(seg@));
            assert(before.push(seg@) =~= before + seq![seg@]);
            let t = text@.skip(i as int);
            if j < n {
                assert(t.skip(line_break(t) as int + 1) =~= text@.skip(j + 1));
            }
        }
        if j < n {
            i = j + 1;
        } else {
            i = n;
            proof {
                assert(split_lines(text@.skip(n as int)) =~= Seq::<Seq<char>>::empty());
                assert(text@.skip(i as int).len() == 0);
            }
        }
    }
    proof {
        assert(text@.skip(n as int).len() == 0);
        assert(lines.deep_view() =~= lines.deep_view() + split_lines(text@.skip(n as int)));
    }
    lines
}

/// The text with leading whitespace removed.
pub open spec fn trim_front(s: Seq<char>) -> Seq<char>
    decreases s.len(),
{
    if s.len() > 0 && is_ws(s[0]) {
        trim_front(s.skip(1))
    } else {
        s
    }
}

/// The text with trailing whitespace removed.
pub open spec fn trim_back(s: Seq<char>) -> Seq<char>
    decreases s.len(),
{
    if s.len() > 0 && is_ws(s.last()) {
        trim_back(s.drop_last())
    } else {
        s
    }
}

/// The text with whitespace removed from both ends.
pub open spec fn trim_spec(s: Seq<char>) -> Seq<char> {
    trim_back(trim_front(s))
}

/// Removes whitespace from both ends of a line.
pub fn trim_str(s: &str) -> (t: String)
    ensures
        t@ == trim_spec(s@),
{
    let n = s.unicode_len();
    let mut a: usize = 0;
    proof {
        assert(s@.skip(0) =~= s@);
    }
    while a < n && is_ws_char(s.get_char(a))
        invariant
            n == s@.len(),
            a <= n,
            trim_front(s@) == trim_front(s@.skip(a as int)),
        decreases n - a,
    {
        proof {
            assert(s@.skip(a as int).skip(1) =~= s@.skip(a + 1));
        }
        a = a + 1;
    }
    let ghost f = s@.skip(a as int);
    proof {
        if a < n {
            assert(!is_ws(f[0]));
        }
        assert(trim_front(s@) == f);
    }
    let mut b: usize = n;
    proof {
        assert(f.take(n - a) =~= f);
    }
    while b > a && is_ws_char(s.get_char(b - 1))
        invariant
            n == s@.len(),
            a <= b <= n,
            f == s@.skip(a as int),
            trim_back(f) == trim_back(f.take(b - a)),
        decreases b,
    {
        proof {
            let t = f.take(b - a);
            assert(t.last() == s@[b - 1]);
            assert(t.drop_last() =~= f.take(b - 1 - a));
        }
        b = b - 1;
    }
    proof {
        let t = f.take(b - a);
        if b > a {
            assert(t.last() == s@[b - 1]);
            assert(!is_ws(t.last()));
        }
        assert(trim_back(t) == t);
        assert(s@.subrange(a as int, b as int) =~= t);
    }
    s.substring_char(a, b).to_owned()
}

/// The number of characters in the widest line.
pub open spec fn max_line_len(lines: Seq<Seq<char>>) -> nat
    decreases lines.len(),
{
    if lines.len() == 0 {
        0
    } else if lines.last().len() > max_line_len(lines.drop_last()) {
        lines.last().len()
    } else {
        max_line_len(lines.drop_last())
    }
}

/// Finds the number of characters in the widest line.
pub fn max_line_width(lines: &Vec<String>) -> (m: usize)
    ensures
        m == max_line_len(lines.deep_view()),
{
    let ghost all = lines.deep_view();
    let mut m: usize = 0;
    let mut i: usize = 0;
    proof {
        assert(all.take(0) =~= Seq::<Seq<char>>::empty());
    }
    while i < lines.len()
        invariant
            i <= lines.len(),
            all == lines.deep_view(),
            m == max_line_len(all.take(i as int)),
        decreases lines.len() - i,
    {
        let l = lines[i].as_str().unicode_len();
        if l > m {
            m = l;
        }
        proof {
            assert(all.take(i + 1).drop_last() =~= all.take(i as int));
            assert(all.take(i + 1).last() == all[i as int]);
        }
        i = i + 1;
    }
    proof {
        assert(all.take(lines.len() as int) =~= all);
    }
    m
}

/// Whether `l` occurs as a word of one of the source lines.
pub open spec fn is_source_word(l: Seq<char>, lines: Seq<Seq<char>>) -> bool {
    exists|i: int| 0 <= i < lines.len() && split_ws(lines[i]).contains(l)
}

/// A line of nothing but whitespace (the empty line included).
pub open spec fn is_blank(l: Seq<char>) -> bool {
    forall|k: int| 0 <= k < l.len() ==> is_ws(l[k])
}

/// A word sequence fit for re-joining: every word is nonempty and holds no
/// whitespace.
pub open spec fn proper_words(ws: Seq<Seq<char>>) -> bool {
    forall|k: int|
        0 <= k < ws.len() ==> (#[trigger] ws[k]).len() >= 1 && (forall|p: int|
            0 <= p < ws[k].len() ==> !is_ws(ws[k][p]))
}

/// No word of any source line is wider than the column budget.
pub open spec fn words_fit(lines: Seq<Seq<char>>, w: nat) -> bool {
    forall|i: int, k: int|
        0 <= i < lines.len() && 0 <= k < split_ws(lines[i]).len() ==> (#[trigger] split_ws(
            lines[i],
        )[k]).len() <= w
}

proof fn lemma_split_ws_proper(s: Seq<char>)
    ensures
        proper_words(split_ws(s)),
    decreases s.len(),
{
    if s.len() == 0 {
    } else if is_ws(s[0]) {
        lemma_split_ws_proper(s.skip(1));
    } else {
        lemma_word_len_bound(s);
        lemma_split_ws_proper(s.skip(word_len(s) as int));
        let word = s.take(word_len(s) as int);
        assert(word.len() >= 1 && forall|p: int| 0 <= p < word.len() ==> !is_ws(word[p]));
        assert forall|k: int| 0 <= k < split_ws(s).len() implies (#[trigger] split_ws(s)[k]).len()
            >= 1 && (forall|p: int| 0 <= p < split_ws(s)[k].len() ==> !is_ws(split_ws(s)[k][p])) by {
            if k > 0 {
                assert(split_ws(s)[k] == split_ws(s.skip(word_len(s) as int))[k - 1]);
            }
        }
    }
}

proof fn lemma_split_ws_blank(l: Seq<char>)
    requires
        is_blank(l),
    ensures
        split_ws(l) == Seq::<Seq<char>>::empty(),
    decreases l.len(),
{
    if l.len() > 0 {
        assert(is_blank(l.skip(1)));
        lemma_split_ws_blank(l.skip(1));
    }
}

proof fn lemma_join_words_front(ws: Seq<Seq<char>>)
    requires
        ws.len() >= 2,
    ensures
        join_words(ws) == ws[0] + seq![' '] + join_words(ws.skip(1)),
    decreases ws.len(),
{
    if ws.len() == 2 {
        assert(ws.drop_last() =~= seq![ws[0]]);
        assert(ws.skip(1) =~= seq![ws[1]]);
        assert(join_words(seq![ws[0]]) == ws[0]);
        assert(join_words(seq![ws[1]]) == ws[1]);
    } else {
        lemma_join_words_front(ws.drop_last());
        assert(ws.drop_last()[0] == ws[0]);
        assert(ws.drop_last().skip(1) =~= ws.skip(1).drop_last());
        assert(ws.skip(1).len() >= 2);
        assert(join_words(ws.skip(1)) == join_words(ws.skip(1).drop_last()) + seq![' ']
            + ws.skip(1).last());
        assert(ws.skip(1).last() == ws.last());
        assert((ws[0] + seq![' '] + (join_words(ws.skip(1).drop_last()) + seq![' '] + ws.last()))
            =~= ((ws[0] + seq![' '] + join_words(ws.skip(1).drop_last())) + seq![' '] + ws.last()));
    }
}

proof fn lemma_split_ws_concat(a: Seq<char>, t: Seq<char>)
    requires
        a.len() >= 1,
        forall|p: int| 0 <= p < a.len() ==> !is_ws(a[p]),
    ensures
        split_ws(a + seq![' '] + t) == seq![a] + split_ws(t),
{
    let s = a + seq![' '] + t;
    assert forall|j: int| 0 <= j < a.len() implies !is_ws(s[j]) by {
        assert(s[j] == a[j]);
    }
    assert(s[a.len() as int] == ' ');
    lemma_word_len_is(s, a.len() as int);
    assert(!is_ws(s[0]));
    assert(split_ws(s) == seq![s.take(a.len() as int)] + split_ws(s.skip(a.len() as int)));
    assert(s.take(a.len() as int) =~= a);
    let u = seq![' '] + t;
    assert(s.skip(a.len() as int) =~= u);
    assert(u.len() >= 1 && u[0] == ' ');
    assert(split_ws(u) == split_ws(u.skip(1)));
    assert(u.skip(1) =~= t);
}

/// Splitting the joined text of proper words gives the words back.
proof fn lemma_split_join(ws: Seq<Seq<char>>)
    requires
        ws.len() >= 1,
        proper_words(ws),
    ensures
        split_ws(join_words(ws)) == ws,
    decreases ws.len(),
{
    if ws.len() == 1 {
        let word = ws[0];
        lemma_word_len_is(word, word.len() as int);
        assert(split_ws(word) == seq![word.take(word.len() as int)] + split_ws(
            word.skip(word.len() as int),
        ));
        assert(word.take(word.len() as int) =~= word);
        assert(word.skip(word.len() as int) =~= Seq::<char>::empty());
        assert(seq![word] + split_ws(Seq::<char>::empty()) =~= ws);
    } else {
        lemma_join_words_front(ws);
        lemma_split_ws_concat(ws[0], join_words(ws.skip(1)));
        assert(proper_words(ws.skip(1)));
        lemma_split_join(ws.skip(1));
        assert(seq![ws[0]] + ws.skip(1) =~= ws);
    }
}

proof fn lemma_packed_width_concat(a: Seq<Seq<char>>, b: Seq<Seq<char>>)
    ensures
        packed_width(a + b) == packed_width(a) + packed_width(b),
    decreases b.len(),
{
    if b.len() == 0 {
        assert(a + b =~= a);
    } else {
        assert((a + b).drop_last() =~= a + b.drop_last());
        assert((a + b).last() == b.last());
        lemma_packed_width_concat(a, b.drop_last());
    }
}

/// When everything fits on one line, greedy packing emits exactly that line.
proof fn lemma_pack_fits(rest: Seq<Seq<char>>, w: nat, acc: Seq<Seq<char>>)
    requires
        packed_width(acc) + packed_width(rest) <= w + 1,
    ensures
        pack_words(rest, w, acc) == seq![join_words(acc + rest)],
    decreases rest.len(),
{
    if rest.len() == 0 {
        assert(acc + rest =~= acc);
    } else {
        let x = rest[0];
        assert(rest =~= seq![x] + rest.skip(1));
        lemma_packed_width_concat(seq![x], rest.skip(1));
        assert(seq![x].drop_last() =~= Seq::<Seq<char>>::empty());
        assert(packed_width(Seq::<Seq<char>>::empty()) == 0);
        assert(packed_width(seq![x]) == x.len() + 1);
        lemma_packed_width_push(acc, x);
        assert(packed_width(acc) + x.len() <= w);
        lemma_pack_fits(rest.skip(1), w, acc.push(x));
        assert(acc.push(x) + rest.skip(1) =~= acc + rest);
    }
}

/// Re-wrapping a line reproduces it exactly.
pub open spec fn refold_ok(l: Seq<char>, w: nat) -> bool {
    fold_line(l, w) == seq![l]
}

proof fn lemma_refold_empty(w: nat)
    ensures
        refold_ok(Seq::<char>::empty(), w),
{
    assert(split_ws(Seq::<char>::empty()) == Seq::<Seq<char>>::empty());
    assert(fold_line(Seq::<char>::empty(), w) == seq![join_words(Seq::<Seq<char>>::empty())]);
}

/// A canonical line — proper words joined by single spaces, within the
/// budget — re-wraps to itself.
proof fn lemma_refold_canonical(cur: Seq<Seq<char>>, w: nat)
    requires
        proper_words(cur),
        cur.len() == 0 || join_words(cur).len() <= w,
    ensures
        refold_ok(join_words(cur), w),
{
    if cur.len() == 0 {
        lemma_refold_empty(w);
    } else {
        lemma_split_join(cur);
        lemma_join_words_len(cur);
        lemma_pack_fits(cur, w, Seq::<Seq<char>>::empty());
        assert(Seq::<Seq<char>>::empty() + cur =~= cur);
    }
}

proof fn lemma_pack_words_refold(words: Seq<Seq<char>>, w: nat, cur: Seq<Seq<char>>)
    requires
        proper_words(words),
        proper_words(cur),
        forall|k: int| 0 <= k < words.len() ==> (#[trigger] words[k]).len() <= w,
        cur.len() == 0 || join_words(cur).len() <= w,
    ensures
        forall|j: int|
            0 <= j < pack_words(words, w, cur).len() ==> refold_ok(
                #[trigger] pack_words(words, w, cur)[j],
                w,
            ),
    decreases words.len(),
{
    if words.len() == 0 {
        lemma_refold_canonical(cur, w);
    } else {
        let x = words[0];
        assert(proper_words(words.skip(1))) by {
            assert(forall|k: int|
                0 <= k < words.skip(1).len() ==> words.skip(1)[k] == words[k + 1]);
        }
        if packed_width(cur) + x.len() > w {
            lemma_refold_canonical(cur, w);
            assert(proper_words(seq![x]));
            assert(join_words(seq![x]) == x);
            lemma_pack_words_refold(words.skip(1), w, seq![x]);
            assert forall|j: int| 0 <= j < pack_words(words, w, cur).len() implies refold_ok(
                pack_words(words, w, cur)[j],
                w,
            ) by {
                if j > 0 {
                    assert(pack_words(words, w, cur)[j] == pack_words(words.skip(1), w, seq![x])[j
                        - 1]);
                }
            }
        } else {
            lemma_join_words_push(cur, x);
            lemma_packed_width_push(cur, x);
            lemma_join_words_len(cur);
            assert(proper_words(cur.push(x))) by {
                assert(forall|k: int|
                    0 <= k < cur.len() ==> cur.push(x)[k] == cur[k]);
                assert(cur.push(x)[cur.len() as int] == x);
            }
            assert(join_words(cur.push(x)).len() <= w);
            lemma_pack_words_refold(words.skip(1), w, cur.push(x));
            assert(pack_words(words, w, cur) == pack_words(words.skip(1), w, cur.push(x)));
            assert forall|j: int| 0 <= j < pack_words(words, w, cur).len() implies refold_ok(
                pack_words(words, w, cur)[j],
                w,
            ) by {
                assert(pack_words(words, w, cur)[j] == pack_words(words.skip(1), w, cur.push(x))[j]);
            }
        }
    }
}

proof fn lemma_pack_words_bound(words: Seq<Seq<char>>, w: nat, cur: Seq<Seq<char>>, all: Seq<
    Seq<char>,
>)
    requires
        cur.len() <= 1 || join_words(cur).len() <= w,
        cur.len() == 1 ==> all.contains(cur[0]),
        forall|k: int| 0 <= k < words.len() ==> all.contains(#[trigger] words[k]),
    ensures
        forall|j: int|
            0 <= j < pack_words(words, w, cur).len() ==> (#[trigger] pack_words(words, w, cur)[j]).len()
                <= w || all.contains(pack_words(words, w, cur)[j]),
    decreases words.len(),
{
    if words.len() == 0 {
        if cur.len() == 1 {
            assert(join_words(cur) == cur[0]);
        }
    } else {
        let x = words[0];
        assert(all.contains(x));
        assert(forall|k: int|
            0 <= k < words.skip(1).len() ==> all.contains(#[trigger] words.skip(1)[k]));
        if packed_width(cur) + x.len() > w {
            if cur.len() == 1 {
                assert(join_words(cur) == cur[0]);
            }
            lemma_pack_words_bound(words.skip(1), w, seq![x], all);
            assert forall|j: int| 0 <= j < pack_words(words, w, cur).len() implies (
            #[trigger] pack_words(words, w, cur)[j]).len() <= w || all.contains(
                pack_words(words, w, cur)[j],
            ) by {
                if j > 0 {
                    assert(pack_words(words, w, cur)[j] == pack_words(words.skip(1), w, seq![x])[j
                        - 1]);
                }
            }
        } else {
            lemma_join_words_push(cur, x);
            lemma_packed_width_push(cur, x);
            lemma_join_words_len(cur);
            assert(join_words(cur.push(x)).len() <= w);
            lemma_pack_words_bound(words.skip(1), w, cur.push(x), all);
            assert(pack_words(words, w, cur) == pack_words(words.skip(1), w, cur.push(x)));
            assert forall|j: int| 0 <= j < pack_words(words, w, cur).len() implies (
            #[trigger] pack_words(words, w, cur)[j]).len() <= w || all.contains(
                pack_words(words, w, cur)[j],
            ) by {
                assert(pack_words(words, w, cur)[j] == pack_words(words.skip(1), w, cur.push(x))[j]);
            }
        }
    }
}

/// Wrap width bound: every wrapped output line fits within the column
/// budget, except a line formed from a single over-long source word.
pub proof fn lemma_wrap_width_bound(lines: Seq<Seq<char>>, w: nat)
    ensures
        forall|j: int|
            0 <= j < fold_lines(lines, w).len() ==> (#[trigger] fold_lines(lines, w)[j]).len() <= w
                || is_source_word(fold_lines(lines, w)[j], lines),
    decreases lines.len(),
{
    if lines.len() == 0 {
    } else {
        let g0 = fold_line(lines[0], w);
        let restout = fold_lines(lines.skip(1), w);
        lemma_pack_words_bound(split_ws(lines[0]), w, Seq::<Seq<char>>::empty(), split_ws(lines[0]));
        lemma_wrap_width_bound(lines.skip(1), w);
        assert forall|j: int| 0 <= j < fold_lines(lines, w).len() implies (#[trigger] fold_lines(
            lines,
            w,
        )[j]).len() <= w || is_source_word(fold_lines(lines, w)[j], lines) by {
            let l = fold_lines(lines, w)[j];
            if j < g0.len() {
                assert(l == g0[j]);
                if l.len() > w {
                    assert(split_ws(lines[0]).contains(l));
                    assert(0 <= 0 < lines.len() && split_ws(lines[0]).contains(l));
                }
            } else {
                assert(l == restout[j - g0.len()]);
                if l.len() > w {
                    assert(is_source_word(l, lines.skip(1)));
                    let i = choose|i: int|
                        0 <= i < lines.skip(1).len() && split_ws(lines.skip(1)[i]).contains(l);
                    assert(lines.skip(1)[i] == lines[i + 1]);
                    assert(0 <= i + 1 < lines.len() && split_ws(lines[i + 1]).contains(l));
                }
            }
        }
    }
}

/// Wrap totality: the empty document wraps to the empty document, a blank
/// document of `n` lines wraps to exactly `n` empty lines, and every source
/// line yields at least one output line.
pub proof fn lemma_wrap_totality(lines: Seq<Seq<char>>, w: nat)
    ensures
        lines.len() == 0 ==> fold_lines(lines, w) == Seq::<Seq<char>>::empty(),
        (forall|i: int| 0 <= i < lines.len() ==> is_blank(#[trigger] lines[i])) ==> fold_lines(
            lines,
            w,
        ) =~= Seq::new(lines.len(), |i: int| Seq::<char>::empty()),
        fold_lines(lines, w).len() >= lines.len(),
    decreases lines.len(),
{
    if lines.len() == 0 {
    } else {
        lemma_wrap_totality(lines.skip(1), w);
        lemma_pack_words_count(split_ws(lines[0]), w, Seq::<Seq<char>>::empty());
        if forall|i: int| 0 <= i < lines.len() ==> is_blank(#[trigger] lines[i]) {
            assert(is_blank(lines[0]));
            lemma_split_ws_blank(lines[0]);
            assert(fold_line(lines[0], w) == seq![join_words(Seq::<Seq<char>>::empty())]);
            assert(forall|i: int| 0 <= i < lines.skip(1).len() ==> is_blank(#[trigger] lines.skip(1)[i]));
            assert(fold_lines(lines, w) =~= Seq::new(lines.len(), |i: int| Seq::<char>::empty()));
        }
    }
}

proof fn lemma_pack_words_count(words: Seq<Seq<char>>, w: nat, cur: Seq<Seq<char>>)
    ensures
        pack_words(words, w, cur).len() >= 1,
    decreases words.len(),
{
    if words.len() == 0 {
    } else if packed_width(cur) + words[0].len() > w {
    } else {
        lemma_pack_words_count(words.skip(1), w, cur.push(words[0]));
    }
}

proof fn lemma_fold_lines_refold(out: Seq<Seq<char>>, w: nat)
    requires
        forall|j: int| 0 <= j < out.len() ==> refold_ok(#[trigger] out[j], w),
    ensures
        fold_lines(out, w) == out,
    decreases out.len(),
{
    if out.len() == 0 {
    } else {
        assert(forall|j: int| 0 <= j < out.skip(1).len() ==> out.skip(1)[j] == out[j + 1]);
        lemma_fold_lines_refold(out.skip(1), w);
        assert(fold_lines(out, w) == seq![out[0]] + out.skip(1));
        assert(seq![out[0]] + out.skip(1) =~= out);
    }
}

/// Wrap idempotence: so long as no source word is wider than the budget,
/// re-wrapping already-wrapped output with the same width is a fixed point.
/// (A single over-long word is emitted on an over-wide line of its own and
/// is preceded by a flushed — possibly empty — line, which a second pass
/// would not reproduce; such inputs are excluded by `words_fit`.)
pub proof fn lemma_wrap_idempotent(lines: Seq<Seq<char>>, w: nat)
    requires
        words_fit(lines, w),
    ensures
        fold_lines(fold_lines(lines, w), w) == fold_lines(lines, w),
    decreases lines.len(),
{
    let out = fold_lines(lines, w);
    assert forall|j: int| 0 <= j < out.len() implies refold_ok(#[trigger] out[j], w) by {
        lemma_fold_lines_refold_ok(lines, w, j);
    }
    lemma_fold_lines_refold(out, w);
}

proof fn lemma_fold_lines_refold_ok(lines: Seq<Seq<char>>, w: nat, j: int)
    requires
        words_fit(lines, w),
        0 <= j < fold_lines(lines, w).len(),
    ensures
        refold_ok(fold_lines(lines, w)[j], w),
    decreases lines.len(),
{
    let g0 = fold_line(lines[0], w);
    lemma_split_ws_proper(lines[0]);
    assert(forall|k: int|
        0 <= k < split_ws(lines[0]).len() ==> (#[trigger] split_ws(lines[0])[k]).len() <= w);
    lemma_pack_words_refold(split_ws(lines[0]), w, Seq::<Seq<char>>::empty());
    if j < g0.len() {
        assert(fold_lines(lines, w)[j] == g0[j]);
    } else {
        assert(fold_lines(lines, w)[j] == fold_lines(lines.skip(1), w)[j - g0.len()]);
        assert(words_fit(lines.skip(1), w)) by {
            assert(forall|i: int|
                0 <= i < lines.skip(1).len() ==> lines.skip(1)[i] == lines[i + 1]);
        }
        lemma_fold_lines_refold_ok(lines.skip(1), w, j - g0.len());
    }
}

/// Re-flows `lines` so that words never straddle a line break and, except
/// for single words wider than the budget, no output line is wider than
/// `max_line_width` columns.  Every source line yields at least one output
/// line; a blank source line yields one empty output line.
pub fn fold(lines: &Vec<&str>, max_line_width: u16) -> (folded: Vec<String>)
    ensures
        folded.deep_view() == fold_lines(lines.deep_view(), max_line_width as nat),
{
    let mut folded: Vec<String> = Vec::new();
    let ghost all = lines.deep_view();
    let mut i: usize = 0;
    proof {
        assert(folded.deep_view() =~= Seq::<Seq<char>>::empty());
        assert(all.skip(0) =~= all);
    }
    while i < lines.len()
        invariant
            i <= lines.len(),
            all == lines.deep_view(),
            fold_lines(all, max_line_width as nat) == folded.deep_view() + fold_lines(
                all.skip(i as int),
                max_line_width as nat,
            ),
        decreases lines.len() - i,
    {
        let line: &str = lines[i];
        proof {
            assert(all.skip(i as int)[0] == all[i as int]);
            assert(all[i as int] == line@);
            assert(all.skip(i as int).skip(1) =~= all.skip(i + 1));
        }
        let words = split_whitespace_words(line);
        let mut packed = pack_line(&words, max_line_width);
        let ghost before = folded.deep_view();
        let ghost group = packed.deep_view();
        folded.append(&mut packed);
        proof {
            assert(folded.deep_view() =~= before + group);
            assert(group == fold_line(line@, max_line_width as nat));
        }
        i = i + 1;
    }
    proof {
        assert(all.skip(lines.len() as int) =~= Seq::<Seq<char>>::empty());
        assert(folded.deep_view() =~= folded.deep_view() + fold_lines(
            all.skip(lines.len() as int),
            max_line_width as nat,
        ));
    }
    folded
}

} // verus!
