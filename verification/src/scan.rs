//! Cutting text into words, pieces and lines.

use vstd::prelude::*;

#[allow(unused_imports)]
use crate::text;
use crate::text::{text_chars, text_of};

verus! {

/// What the texts of a list say.
pub open spec fn texts(v: Seq<String>) -> Seq<Seq<char>> {
    v.map_values(|s: String| s@)
}

/// `c` is white space: the control characters and separators that Unicode
/// gives the property `White_Space`.
pub open spec fn white(c: char) -> bool {
    let n = c as int;
    9 <= n <= 13 || n == 0x20 || n == 0x85 || n == 0xA0 || n == 0x1680 || 0x2000 <= n <= 0x200A
        || n == 0x2028 || n == 0x2029 || n == 0x202F || n == 0x205F || n == 0x3000
}

/// The maximal runs of non-white characters of `s`, in order.
pub open spec fn words(s: Seq<char>) -> Seq<Seq<char>>
    decreases s.len(),
{
    if s.len() == 0 {
        seq![]
    } else {
        let before = words(s.drop_last());
        let c = s.last();
        if white(c) {
            before
        } else if s.len() >= 2 && !white(s[s.len() - 2]) {
            before.drop_last().push(before.last().push(c))
        } else {
            before.push(seq![c])
        }
    }
}

/// The pieces of `s` between the separators `sep`: one more than there are
/// separators.
pub open spec fn pieces(s: Seq<char>, sep: char) -> Seq<Seq<char>>
    decreases s.len(),
{
    if s.len() == 0 {
        seq![seq![]]
    } else {
        let before = pieces(s.drop_last(), sep);
        if s.last() == sep {
            before.push(seq![])
        } else {
            before.drop_last().push(before.last().push(s.last()))
        }
    }
}

/// `s` without a carriage return at its end.
pub open spec fn without_return(s: Seq<char>) -> Seq<char> {
    if s.len() > 0 && s.last() == '\r' {
        s.drop_last()
    } else {
        s
    }
}

/// The lines of `s`. A line ends with a line feed, or a carriage return and a
/// line feed; the last one may go without.
pub open spec fn lines(s: Seq<char>) -> Seq<Seq<char>> {
    let p = pieces(s, '\n');
    let n = if p.last().len() == 0 {
        p.len() - 1
    } else {
        p.len() as int
    };
    Seq::new(
        n as nat,
        |i: int|
            if i < p.len() - 1 {
                without_return(p[i])
            } else {
                p[i]
            },
    )
}

/// `s` without the white space at its start.
pub open spec fn trimmed_start(s: Seq<char>) -> Seq<char>
    decreases s.len(),
{
    if s.len() > 0 && white(s[0]) {
        trimmed_start(s.drop_first())
    } else {
        s
    }
}

/// `s` without the white space at its end.
pub open spec fn trimmed_end(s: Seq<char>) -> Seq<char>
    decreases s.len(),
{
    if s.len() > 0 && white(s.last()) {
        trimmed_end(s.drop_last())
    } else {
        s
    }
}

/// `s` without the white space at its start and end.
pub open spec fn trimmed(s: Seq<char>) -> Seq<char> {
    trimmed_end(trimmed_start(s))
}

/// Whether `c` is white space.
pub fn is_white(c: char) -> (r: bool)
    ensures
        r == white(c),
{
    let n: u32 = c as u32;
    (9 <= n && n <= 13) || n == 0x20 || n == 0x85 || n == 0xA0 || n == 0x1680 || (0x2000 <= n && n
        <= 0x200A) || n == 0x2028 || n == 0x2029 || n == 0x202F || n == 0x205F || n == 0x3000
}

proof fn lemma_texts_push(v: Seq<String>, s: String)
    ensures
        texts(v.push(s)) == texts(v).push(s@),
{
    assert(texts(v.push(s)) =~= texts(v).push(s@));
}

/// The words of `s`.
pub fn split_words(s: &str) -> (out: Vec<String>)
    ensures
        texts(out@) == words(s@),
{
    let v = text_chars(s);
    let mut done: Vec<String> = Vec::new();
    let mut cur = String::new();
    let mut i: usize = 0;
    assert(texts(done@) =~= words(v@.take(0)));
    while i < v.len()
        invariant
            i <= v@.len(),
            v@ == s@,
            (i == 0 || white(v@[i - 1])) ==> cur@ == Seq::<char>::empty() && words(
                v@.take(i as int),
            ) == texts(done@),
            (i > 0 && !white(v@[i - 1])) ==> words(v@.take(i as int)) == texts(done@).push(cur@),
        decreases v@.len() - i,
    {
        let c: char = v[i];
        let ghost t = v@.take(i + 1);
        assert(t.drop_last() =~= v@.take(i as int));
        assert(t.last() == c);
        assert(i > 0 ==> t[t.len() - 2] == v@[i - 1]);
        if is_white(c) {
            let in_word = i > 0 && !is_white(v[i - 1]);
            if in_word {
                let mut w = String::new();
                std::mem::swap(&mut w, &mut cur);
                proof {
                    lemma_texts_push(done@, w);
                }
                done.push(w);
            }
        } else {
            let ghost before = cur@;
            cur.push(c);
            proof {
                if i > 0 && !white(v@[i - 1]) {
                    let b = texts(done@).push(before);
                    assert(b.drop_last() =~= texts(done@));
                    assert(b.last() == before);
                } else {
                    assert(cur@ =~= seq![c]);
                }
            }
        }
        i = i + 1;
    }
    assert(v@.take(i as int) =~= v@);
    if i > 0 && !is_white(v[i - 1]) {
        proof {
            lemma_texts_push(done@, cur);
        }
        done.push(cur);
    }
    done
}

/// The pieces of `s` between the separators `sep`.
pub fn split_pieces(s: &str, sep: char) -> (out: Vec<String>)
    ensures
        texts(out@) == pieces(s@, sep),
        out@.len() > 0,
{
    let v = text_chars(s);
    let mut done: Vec<String> = Vec::new();
    let mut cur = String::new();
    let mut i: usize = 0;
    assert(pieces(v@.take(0), sep) =~= texts(done@).push(cur@)) by {
        assert(cur@ =~= seq![]);
    }
    while i < v.len()
        invariant
            i <= v@.len(),
            v@ == s@,
            pieces(v@.take(i as int), sep) == texts(done@).push(cur@),
        decreases v@.len() - i,
    {
        let c: char = v[i];
        let ghost t = v@.take(i + 1);
        let ghost b = texts(done@).push(cur@);
        assert(t.drop_last() =~= v@.take(i as int));
        assert(t.last() == c);
        if c == sep {
            let mut w = String::new();
            std::mem::swap(&mut w, &mut cur);
            proof {
                lemma_texts_push(done@, w);
                assert(cur@ =~= seq![]);
            }
            done.push(w);
        } else {
            proof {
                assert(b.drop_last() =~= texts(done@));
                assert(b.last() == cur@);
            }
            cur.push(c);
        }
        i = i + 1;
    }
    assert(v@.take(i as int) =~= v@);
    proof {
        lemma_texts_push(done@, cur);
    }
    done.push(cur);
    done
}

fn drop_return(s: &str) -> (r: String)
    ensures
        r@ == without_return(s@),
{
    let v = text_chars(s);
    let n: usize = v.len();
    if n > 0 && v[n - 1] == '\r' {
        let r = text_of(&v, 0, n - 1);
        assert(r@ =~= s@.drop_last());
        r
    } else {
        s.to_owned()
    }
}

/// The lines of `s`.
pub fn split_lines(s: &str) -> (out: Vec<String>)
    ensures
        texts(out@) == lines(s@),
{
    let p = split_pieces(s, '\n');
    let n: usize = p.len();
    let last_empty = p[n - 1].as_str().is_empty();
    let m: usize = if last_empty {
        n - 1
    } else {
        n
    };
    let mut out: Vec<String> = Vec::new();
    let mut i: usize = 0;
    assert(texts(p@).last() == p@[n - 1]@);
    assert(lines(s@).len() == m);
    while i < m
        invariant
            n == p@.len() > 0,
            i <= m <= n,
            m == (if texts(p@).last().len() == 0 {
                n - 1
            } else {
                n as int
            }),
            texts(p@) == pieces(s@, '\n'),
            lines(s@).len() == m,
            texts(out@) == lines(s@).take(i as int),
        decreases m - i,
    {
        assert(texts(p@)[i as int] == p@[i as int]@);
        let line = if i < n - 1 {
            drop_return(p[i].as_str())
        } else {
            p[i].clone()
        };
        assert(line@ == lines(s@)[i as int]);
        proof {
            lemma_texts_push(out@, line);
            assert(lines(s@).take(i + 1) =~= lines(s@).take(i as int).push(line@));
        }
        out.push(line);
        i = i + 1;
    }
    assert(lines(s@).take(i as int) =~= lines(s@));
    out
}

/// `s` without the white space at its start and end.
pub fn trim(s: &str) -> (r: String)
    ensures
        r@ == trimmed(s@),
{
    let v = text_chars(s);
    let mut a: usize = 0;
    assert(v@.skip(0) =~= v@);
    while a < v.len() && is_white(v[a])
        invariant
            a <= v@.len(),
            v@ == s@,
            trimmed_start(s@) == trimmed_start(v@.skip(a as int)),
        decreases v@.len() - a,
    {
        assert(v@.skip(a as int).drop_first() =~= v@.skip(a + 1));
        a = a + 1;
    }
    assert(trimmed_start(s@) == v@.skip(a as int));
    let mut b: usize = v.len();
    assert(v@.subrange(a as int, b as int) =~= v@.skip(a as int));
    while b > a && is_white(v[b - 1])
        invariant
            a <= b <= v@.len(),
            trimmed(s@) == trimmed_end(v@.subrange(a as int, b as int)),
        decreases b,
    {
        assert(v@.subrange(a as int, b as int).last() == v@[b - 1]);
        assert(v@.subrange(a as int, b as int).drop_last() =~= v@.subrange(a as int, b - 1));
        b = b - 1;
    }
    assert(b > a ==> v@.subrange(a as int, b as int).last() == v@[b - 1]);
    text_of(&v, a, b)
}

/// The texts `parts` with `sep` between each two.
pub open spec fn joined(parts: Seq<Seq<char>>, sep: Seq<char>) -> Seq<char>
    decreases parts.len(),
{
    if parts.len() == 0 {
        seq![]
    } else if parts.len() == 1 {
        parts[0]
    } else {
        joined(parts.drop_last(), sep) + sep + parts.last()
    }
}

/// Joins the texts `parts` with `sep` between each two.
pub fn join(parts: &Vec<String>, sep: &str) -> (r: String)
    ensures
        r@ == joined(texts(parts@), sep@),
{
    let mut r = String::new();
    let mut i: usize = 0;
    assert(joined(texts(parts@).take(0), sep@) =~= r@);
    while i < parts.len()
        invariant
            i <= parts@.len(),
            r@ == joined(texts(parts@).take(i as int), sep@),
        decreases parts@.len() - i,
    {
        let ghost t = texts(parts@).take(i + 1);
        assert(t.drop_last() =~= texts(parts@).take(i as int));
        assert(t.last() == parts@[i as int]@);
        if i > 0 {
            r.append(sep);
        } else {
            assert(r@ =~= seq![]);
            assert(r@ + parts@[0]@ =~= parts@[0]@);
        }
        r.append(parts[i].as_str());
        i = i + 1;
    }
    assert(texts(parts@).take(i as int) =~= texts(parts@));
    r
}

/// Blanks, tabs and line ends are white; what can be seen in plain text is not.
pub proof fn lemma_white(c: char)
    ensures
        white(' ') && white('\t') && white('\n') && white('\r'),
        33 <= c as int <= 126 ==> !white(c),
        c as int <= 8 ==> !white(c),
{
}

proof fn lemma_some_words(s: Seq<char>)
    ensures
        s.len() > 0 && !white(s.last()) ==> words(s).len() > 0,
{
}

/// Words are cut at white space: those before and those behind it.
pub proof fn lemma_words_cut(a: Seq<char>, c: char, b: Seq<char>)
    requires
        white(c),
    ensures
        words(a + seq![c] + b) == words(a) + words(b),
    decreases b.len(),
{
    let s = a + seq![c] + b;
    if b.len() == 0 {
        assert(s.drop_last() =~= a);
        assert(words(s) =~= words(a) + words(b));
    } else {
        let t = b.drop_last();
        lemma_words_cut(a, c, t);
        assert(s.drop_last() =~= a + seq![c] + t);
        assert(s.last() == b.last());
        if !white(b.last()) && b.len() >= 2 && !white(b[b.len() - 2]) {
            lemma_some_words(t);
            assert(s[s.len() - 2] == b[b.len() - 2]);
            assert(words(s) =~= words(a) + words(b));
        } else {
            if b.len() >= 2 {
                assert(s[s.len() - 2] == b[b.len() - 2]);
            } else {
                assert(s[s.len() - 2] == c);
            }
            assert(words(s) =~= words(a) + words(b));
        }
    }
}

/// A text without white space is one word.
pub proof fn lemma_one_word(s: Seq<char>)
    requires
        s.len() > 0,
        forall|i: int| 0 <= i < s.len() ==> !white(#[trigger] s[i]),
    ensures
        words(s) == seq![s],
        words(Seq::empty()).len() == 0,
    decreases s.len(),
{
    let t = s.drop_last();
    if t.len() > 0 {
        assert forall|i: int| 0 <= i < t.len() implies !white(#[trigger] t[i]) by {
            assert(t[i] == s[i]);
        }
        lemma_one_word(t);
        assert(t.push(s.last()) =~= s);
        assert(!white(s[s.len() - 2]));
        assert(words(s) =~= seq![s]);
    } else {
        assert(s =~= seq![s.last()]);
        assert(words(t) =~= seq![]);
        assert(words(s) =~= seq![s]);
    }
}

proof fn lemma_some_pieces(s: Seq<char>, sep: char)
    ensures
        pieces(s, sep).len() > 0,
    decreases s.len(),
{
    if s.len() > 0 {
        lemma_some_pieces(s.drop_last(), sep);
    }
}

/// Pieces are cut at the separator: those before and those behind it.
pub proof fn lemma_pieces_cut(a: Seq<char>, sep: char, b: Seq<char>)
    ensures
        pieces(a + seq![sep] + b, sep) == pieces(a, sep) + pieces(b, sep),
    decreases b.len(),
{
    let s = a + seq![sep] + b;
    if b.len() == 0 {
        assert(s.drop_last() =~= a);
        assert(pieces(s, sep) =~= pieces(a, sep) + pieces(b, sep));
    } else {
        let t = b.drop_last();
        lemma_pieces_cut(a, sep, t);
        lemma_some_pieces(t, sep);
        assert(s.drop_last() =~= a + seq![sep] + t);
        assert(s.last() == b.last());
        assert(pieces(s, sep) =~= pieces(a, sep) + pieces(b, sep));
    }
}

/// A text without the separator is one piece.
pub proof fn lemma_one_piece(s: Seq<char>, sep: char)
    requires
        forall|i: int| 0 <= i < s.len() ==> #[trigger] s[i] != sep,
    ensures
        pieces(s, sep) == seq![s],
    decreases s.len(),
{
    if s.len() > 0 {
        let t = s.drop_last();
        assert forall|i: int| 0 <= i < t.len() implies #[trigger] t[i] != sep by {
            assert(t[i] == s[i]);
        }
        lemma_one_piece(t, sep);
        assert(t.push(s.last()) =~= s);
        assert(pieces(s, sep) =~= seq![s]);
    } else {
        assert(s =~= seq![]);
    }
}

/// A line goes to its line feed, without a carriage return before it; what is
/// left behind the last line feed is a line, if anything is.
pub proof fn lemma_lines_cut(a: Seq<char>, b: Seq<char>)
    requires
        forall|i: int| 0 <= i < a.len() ==> #[trigger] a[i] != '\n',
    ensures
        lines(a + seq!['\n'] + b) == seq![without_return(a)] + lines(b),
        a.len() > 0 ==> lines(a) == seq![a],
        lines(Seq::empty()).len() == 0,
        without_return(a.push('\r')) == a,
        a.len() > 0 && a.last() != '\r' ==> without_return(a) == a,
{
    let s = a + seq!['\n'] + b;
    lemma_pieces_cut(a, '\n', b);
    lemma_one_piece(a, '\n');
    lemma_some_pieces(b, '\n');
    let p = pieces(s, '\n');
    let q = pieces(b, '\n');
    assert(p.last() == q.last());
    assert forall|i: int| 1 <= i < p.len() implies p[i] == q[i - 1] by {}
    assert(lines(s) =~= seq![without_return(a)] + lines(b));
    assert(a.len() > 0 ==> lines(a) =~= seq![a]);
    assert(a.push('\r').drop_last() =~= a);
}

/// Trimming takes white space off both ends and nothing else.
pub proof fn lemma_trimmed(s: Seq<char>)
    ensures
        trimmed(s).len() > 0 ==> !white(trimmed(s)[0]) && !white(trimmed(s).last()),
        exists|a: int, b: int|
            #![trigger s.subrange(a, b)]
            {
                &&& 0 <= a <= b <= s.len()
                &&& trimmed(s) == s.subrange(a, b)
                &&& forall|i: int| 0 <= i < a ==> white(#[trigger] s[i])
                &&& forall|i: int| b <= i < s.len() ==> white(#[trigger] s[i])
            },
        s.len() > 0 && !white(s[0]) && !white(s.last()) ==> trimmed(s) == s,
{
    lemma_trimmed_start(s);
    let t = trimmed_start(s);
    lemma_trimmed_end(t);
    let a = s.len() - t.len();
    let b = a + trimmed_end(t).len();
    assert(trimmed(s) =~= s.subrange(a, b));
    assert forall|i: int| b <= i < s.len() implies white(#[trigger] s[i]) by {
        assert(t[i - a] == s[i]);
    }
    if trimmed(s).len() > 0 {
        assert(trimmed(s)[0] == t[0]);
    }
}

/// Trimming the start takes off white space up to the first other character.
pub proof fn lemma_trimmed_start(s: Seq<char>)
    ensures
        ({
            let t = trimmed_start(s);
            &&& t.len() <= s.len()
            &&& t == s.skip(s.len() - t.len())
            &&& t.len() > 0 ==> !white(t[0])
            &&& forall|i: int| 0 <= i < s.len() - t.len() ==> white(#[trigger] s[i])
        }),
    decreases s.len(),
{
    if s.len() > 0 && white(s[0]) {
        let r = s.drop_first();
        lemma_trimmed_start(r);
        let t = trimmed_start(s);
        assert(t =~= s.skip(s.len() - t.len()));
        assert forall|i: int| 0 <= i < s.len() - t.len() implies white(#[trigger] s[i]) by {
            if i > 0 {
                assert(r[i - 1] == s[i]);
            }
        }
    } else {
        assert(s =~= s.skip(0));
    }
}

proof fn lemma_trimmed_end(s: Seq<char>)
    ensures
        ({
            let t = trimmed_end(s);
            &&& t.len() <= s.len()
            &&& t == s.take(t.len() as int)
            &&& t.len() > 0 ==> !white(t.last())
            &&& forall|i: int| t.len() <= i < s.len() ==> white(#[trigger] s[i])
        }),
    decreases s.len(),
{
    if s.len() > 0 && white(s.last()) {
        let r = s.drop_last();
        lemma_trimmed_end(r);
        let t = trimmed_end(s);
        assert(t =~= s.take(t.len() as int));
        assert forall|i: int| t.len() <= i < s.len() implies white(#[trigger] s[i]) by {
            if i < r.len() {
                assert(r[i] == s[i]);
            }
        }
    } else {
        assert(s =~= s.take(s.len() as int));
    }
}

/// Texts are joined with the separator between each two: one text stays as it
/// is, and a further one comes behind a separator.
pub proof fn lemma_joined(parts: Seq<Seq<char>>, more: Seq<char>, sep: Seq<char>)
    ensures
        joined(Seq::empty(), sep).len() == 0,
        joined(seq![more], sep) == more,
        parts.len() > 0 ==> joined(parts.push(more), sep) == joined(parts, sep) + sep + more,
{
    assert(parts.push(more).drop_last() =~= parts);
}

/// Joining the pieces of a text with the separator gives the text.
pub proof fn lemma_pieces_joined(s: Seq<char>, sep: char)
    ensures
        joined(pieces(s, sep), seq![sep]) == s,
    decreases s.len(),
{
    if s.len() == 0 {
        assert(s =~= Seq::<char>::empty());
    } else {
        let t = s.drop_last();
        lemma_pieces_joined(t, sep);
        lemma_some_pieces(t, sep);
        let p = pieces(t, sep);
        if s.last() == sep {
            assert(p.push(seq![]).drop_last() =~= p);
            assert(joined(pieces(s, sep), seq![sep]) =~= s);
        } else {
            let q = pieces(s, sep);
            assert(q.drop_last() =~= p.drop_last());
            assert(joined(q, seq![sep]) =~= joined(p, seq![sep]).push(s.last()));
            assert(t.push(s.last()) =~= s);
        }
    }
}

/// The texts of a list are those of its entries, in their order.
pub proof fn lemma_texts(v: Seq<String>, i: int)
    ensures
        texts(v).len() == v.len(),
        0 <= i < v.len() ==> texts(v)[i] == v[i]@,
{
}

} // verus!
