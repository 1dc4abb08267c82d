use vstd::prelude::*;

verus! {

broadcast use vstd::seq::group_seq_axioms;

/// The characters with the Unicode `White_Space` property, the ones that
/// `char::is_whitespace` and `str::split_whitespace` treat as whitespace.
pub open spec fn is_white_space(c: char) -> bool {
    let v = c as u32;
    ||| 0x9 <= v <= 0xd
    ||| v == 0x20
    ||| v == 0x85
    ||| v == 0xa0
    ||| v == 0x1680
    ||| 0x2000 <= v <= 0x200a
    ||| v == 0x2028
    ||| v == 0x2029
    ||| v == 0x202f
    ||| v == 0x205f
    ||| v == 0x3000
}

/// The contents of each of `pieces`.
pub open spec fn views(pieces: Seq<Vec<char>>) -> Seq<Seq<char>> {
    pieces.map_values(|p: Vec<char>| p@)
}

/// A vector holding the characters of `s`.
pub fn to_char_vec(s: &[char]) -> (r: Vec<char>)
    ensures
        r@ == s@,
{
    let mut r: Vec<char> = Vec::new();
    let n = s.len();
    let mut i: usize = 0;
    while i < n
        invariant
            n == s@.len(),
            i <= n,
            r@ == s@.take(i as int),
        decreases n - i,
    {
        r.push(s[i]);
        i = i + 1;
        assert(r@ =~= s@.take(i as int));
    }
    assert(s@.take(n as int) =~= s@);
    r
}

/// Whether `c` is a whitespace character.
pub fn is_whitespace(c: char) -> (r: bool)
    ensures
        r == is_white_space(c),
{
    let v = c as u32;
    (0x9 <= v && v <= 0xd) || v == 0x20 || v == 0x85 || v == 0xa0 || v == 0x1680 || (0x2000 <= v
        && v <= 0x200a) || v == 0x2028 || v == 0x2029 || v == 0x202f || v == 0x205f || v == 0x3000
}

/// Reading `s` from the left: the words completed so far and the word
/// being read (empty between words).
pub open spec fn words_scan(s: Seq<char>) -> (Seq<Seq<char>>, Seq<char>)
    decreases s.len(),
{
    if s.len() == 0 {
        (seq![], seq![])
    } else {
        let (done, cur) = words_scan(s.drop_last());
        if is_white_space(s.last()) {
            if cur.len() > 0 {
                (done.push(cur), seq![])
            } else {
                (done, cur)
            }
        } else {
            (done, cur.push(s.last()))
        }
    }
}

/// The maximal runs of non-whitespace characters of `s`, in order: what
/// `str::split_whitespace` yields.
pub open spec fn words(s: Seq<char>) -> Seq<Seq<char>> {
    let (done, cur) = words_scan(s);
    if cur.len() > 0 {
        done.push(cur)
    } else {
        done
    }
}

/// Reading `s` from the left: the pieces ended by `sep` so far and the
/// piece being read.
pub open spec fn split_scan(s: Seq<char>, sep: char) -> (Seq<Seq<char>>, Seq<char>)
    decreases s.len(),
{
    if s.len() == 0 {
        (seq![], seq![])
    } else {
        let (done, cur) = split_scan(s.drop_last(), sep);
        if s.last() == sep {
            (done.push(cur), seq![])
        } else {
            (done, cur.push(s.last()))
        }
    }
}

/// The pieces of `s` between occurrences of `sep`, empty ones included:
/// what `str::split` with a one-character pattern yields. There is always
/// one more piece than there are separators.
pub open spec fn split_on(s: Seq<char>, sep: char) -> Seq<Seq<char>> {
    let (done, cur) = split_scan(s, sep);
    done.push(cur)
}

/// The index of the first `"\r\n"` in `s` at or after `i`, or the length of
/// `s` when there is none.
pub open spec fn crlf_search(s: Seq<char>, i: nat) -> nat
    decreases s.len() - i,
{
    if i + 1 >= s.len() {
        s.len()
    } else if s[i as int] == '\r' && s[i + 1int] == '\n' {
        i
    } else {
        crlf_search(s, i + 1)
    }
}

/// The text before the first `"\r\n"`, or all of `s` when it holds none:
/// the first item that `str::split("\r\n")` yields.
pub open spec fn first_line(s: Seq<char>) -> Seq<char> {
    s.take(crlf_search(s, 0) as int)
}

proof fn lemma_crlf_search_bound(s: Seq<char>, i: nat)
    ensures
        crlf_search(s, i) <= s.len(),
        i <= s.len() ==> i <= crlf_search(s, i),
    decreases s.len() - i,
{
    if i + 1 < s.len() {
        lemma_crlf_search_bound(s, i + 1);
    }
}

/// Whether `s` holds a `"\r\n"`.
pub open spec fn has_crlf(s: Seq<char>) -> bool {
    exists|i: int| 0 <= i < s.len() - 1 && #[trigger] s[i] == '\r' && s[i + 1] == '\n'
}

proof fn lemma_crlf_search_after_line(line: Seq<char>, rest: Seq<char>, i: nat)
    requires
        !has_crlf(line),
        i <= line.len(),
    ensures
        crlf_search(line + seq!['\r', '\n'] + rest, i) == line.len(),
        crlf_search(line, i) == line.len(),
    decreases line.len() - i,
{
    let s = line + seq!['\r', '\n'] + rest;
    if i < line.len() {
        if i + 1 < line.len() {
            if line[i as int] == '\r' && line[i + 1int] == '\n' {
                assert(has_crlf(line));
            }
        }
        assert(s[i as int] == line[i as int]);
        if i + 1 == line.len() {
            assert(s[i + 1int] == '\r');
        } else {
            assert(s[i + 1int] == line[i + 1int]);
        }
        lemma_crlf_search_after_line(line, rest, i + 1);
    } else {
        assert(s[i as int] == '\r');
        assert(s[i + 1int] == '\n');
    }
}

/// Law: the first line of a text is what comes before its first
/// `"\r\n"`: a line that holds none, followed by `"\r\n"` and anything,
/// is the first line of the whole, as it is of itself.
pub proof fn lemma_first_line_of_lines(line: Seq<char>, rest: Seq<char>)
    requires
        !has_crlf(line),
    ensures
        first_line(line + seq!['\r', '\n'] + rest) == line,
        first_line(line) == line,
{
    lemma_crlf_search_after_line(line, rest, 0);
    assert((line + seq!['\r', '\n'] + rest).take(line.len() as int) =~= line);
    assert(line.take(line.len() as int) =~= line);
}

/// The length of the first line of `text`: the index of its first
/// `"\r\n"`, or the length of `text` when there is none.
pub fn first_line_len(text: &[char]) -> (r: usize)
    ensures
        r == crlf_search(text@, 0),
        r <= text@.len(),
        text@.take(r as int) == first_line(text@),
{
    let n = text.len();
    let mut i: usize = 0;
    proof {
        lemma_crlf_search_bound(text@, 0);
    }
    while i < n
        invariant
            n == text@.len(),
            i <= n,
            crlf_search(text@, 0) == crlf_search(text@, i as nat),
        decreases n - i,
    {
        if i + 1 >= n {
            return n;
        }
        if text[i] == '\r' && text[i + 1] == '\n' {
            return i;
        }
        i = i + 1;
    }
    n
}

/// The words of the first `len` characters of `text`.
pub fn words_of_prefix(text: &[char], len: usize) -> (r: Vec<Vec<char>>)
    requires
        len <= text@.len(),
    ensures
        views(r@) == words(text@.take(len as int)),
{
    let mut done: Vec<Vec<char>> = Vec::new();
    let mut cur: Vec<char> = Vec::new();
    let mut i: usize = 0;
    assert(text@.take(0) =~= Seq::<char>::empty());
    while i < len
        invariant
            len <= text@.len(),
            i <= len,
            (views(done@), cur@) == words_scan(text@.take(i as int)),
        decreases len - i,
    {
        let c = text[i];
        proof {
            assert(text@.take(i + 1).drop_last() =~= text@.take(i as int));
            assert(text@.take(i + 1).last() == c);
        }
        if is_whitespace(c) {
            if cur.len() > 0 {
                let ghost old_done = views(done@);
                let ghost old_cur = cur@;
                let finished = cur;
                done.push(finished);
                cur = Vec::new();
                assert(views(done@) =~= old_done.push(old_cur));
                assert(cur@ =~= Seq::<char>::empty());
            }
        } else {
            cur.push(c);
        }
        i = i + 1;
    }
    if cur.len() > 0 {
        let ghost old_done = views(done@);
        let ghost old_cur = cur@;
        done.push(cur);
        assert(views(done@) =~= old_done.push(old_cur));
    }
    done
}

/// The pieces of `text` between occurrences of `sep` (empty ones included).
pub fn split_chars(text: &[char], sep: char) -> (r: Vec<Vec<char>>)
    ensures
        views(r@) == split_on(text@, sep),
{
    let n = text.len();
    let mut done: Vec<Vec<char>> = Vec::new();
    let mut cur: Vec<char> = Vec::new();
    let mut i: usize = 0;
    assert(text@.take(0) =~= Seq::<char>::empty());
    while i < n
        invariant
            n == text@.len(),
            i <= n,
            (views(done@), cur@) == split_scan(text@.take(i as int), sep),
        decreases n - i,
    {
        let c = text[i];
        proof {
            assert(text@.take(i + 1).drop_last() =~= text@.take(i as int));
            assert(text@.take(i + 1).last() == c);
        }
        if c == sep {
            let ghost old_done = views(done@);
            let ghost old_cur = cur@;
            let finished = cur;
            done.push(finished);
            cur = Vec::new();
            assert(views(done@) =~= old_done.push(old_cur));
            assert(cur@ =~= Seq::<char>::empty());
        } else {
            cur.push(c);
        }
        i = i + 1;
    }
    assert(text@.take(n as int) =~= text@);
    let ghost old_done = views(done@);
    let ghost old_cur = cur@;
    done.push(cur);
    assert(views(done@) =~= old_done.push(old_cur));
    done
}

/// The pieces joined back together, with `sep` between two neighbours.
pub open spec fn join_with(pieces: Seq<Seq<char>>, sep: char) -> Seq<char>
    decreases pieces.len(),
{
    if pieces.len() == 0 {
        seq![]
    } else if pieces.len() == 1 {
        pieces[0]
    } else {
        join_with(pieces.drop_last(), sep).push(sep) + pieces.last()
    }
}

proof fn lemma_split_scan_joins(s: Seq<char>, sep: char)
    ensures
        join_with(split_scan(s, sep).0.push(split_scan(s, sep).1), sep) == s,
        forall|i: int, j: int|
            0 <= i < split_scan(s, sep).0.len() && 0 <= j < split_scan(s, sep).0[i].len()
                ==> #[trigger] split_scan(s, sep).0[i][j] != sep,
        forall|j: int|
            0 <= j < split_scan(s, sep).1.len() ==> #[trigger] split_scan(s, sep).1[j] != sep,
    decreases s.len(),
{
    if s.len() == 0 {
        assert(join_with(seq![Seq::<char>::empty()], sep) == Seq::<char>::empty());
    } else {
        let t = s.drop_last();
        let x = s.last();
        lemma_split_scan_joins(t, sep);
        let (d, c) = split_scan(t, sep);
        assert(t.push(x) =~= s);
        if x == sep {
            let pieces = d.push(c).push(Seq::<char>::empty());
            assert(pieces.drop_last() =~= d.push(c));
            assert(join_with(pieces, sep) =~= t.push(sep));
        } else {
            let pieces = d.push(c.push(x));
            if d.len() == 0 {
                assert(join_with(pieces, sep) == c.push(x));
                assert(join_with(d.push(c), sep) == c);
            } else {
                assert(pieces.drop_last() =~= d);
                assert(d.push(c).drop_last() =~= d);
                assert(join_with(pieces, sep) =~= join_with(d.push(c), sep).push(x));
            }
        }
    }
}

/// Law: splitting on `sep` loses nothing and keeps no separator: the pieces
/// joined back with `sep` give `s`, and no piece holds `sep`, whatever
/// surrounds the separators.
pub proof fn lemma_split_on_joins_back(s: Seq<char>, sep: char)
    ensures
        join_with(split_on(s, sep), sep) == s,
        forall|i: int, j: int|
            0 <= i < split_on(s, sep).len() && 0 <= j < split_on(s, sep)[i].len()
                ==> #[trigger] split_on(s, sep)[i][j] != sep,
{
    lemma_split_scan_joins(s, sep);
    let (d, c) = split_scan(s, sep);
    assert forall|i: int, j: int|
        0 <= i < split_on(s, sep).len() && 0 <= j < split_on(s, sep)[i].len()
            implies #[trigger] split_on(s, sep)[i][j] != sep by {
        if i < d.len() {
            assert(split_on(s, sep)[i] == d[i]);
            assert(d[i][j] != sep);
        } else {
            assert(split_on(s, sep)[i] == c);
            assert(c[j] != sep);
        }
    }
}

proof fn lemma_split_scan_without_sep(x: Seq<char>, b: Seq<char>, sep: char)
    requires
        !b.contains(sep),
    ensures
        split_scan(x + b, sep) == (split_scan(x, sep).0, split_scan(x, sep).1 + b),
    decreases b.len(),
{
    if b.len() == 0 {
        assert(x + b =~= x);
        assert(split_scan(x, sep).1 + b =~= split_scan(x, sep).1);
    } else {
        let b1 = b.drop_last();
        assert(!b1.contains(sep)) by {
            if b1.contains(sep) {
                let k = choose|k: int| 0 <= k < b1.len() && b1[k] == sep;
                assert(b[k] == sep);
            }
        }
        lemma_split_scan_without_sep(x, b1, sep);
        assert((x + b).drop_last() =~= x + b1);
        assert((x + b).last() == b.last());
        assert(b[b.len() - 1] != sep);
        assert((split_scan(x, sep).1 + b1).push(b.last()) =~= split_scan(x, sep).1 + b);
    }
}

/// Law: a text without `sep` is a single piece, and what follows the last
/// `sep` of a text is its last piece.
pub proof fn lemma_split_on_last_piece(a: Seq<char>, b: Seq<char>, sep: char)
    requires
        !b.contains(sep),
    ensures
        split_on(b, sep) == seq![b],
        split_on(a + seq![sep] + b, sep) == split_on(a, sep).push(b),
        split_on(a + seq![sep] + b, sep).last() == b,
        !a.contains(sep) ==> split_on(a + seq![sep] + b, sep) == seq![a, b],
{
    lemma_split_scan_without_sep(Seq::<char>::empty(), b, sep);
    assert(Seq::<char>::empty() + b =~= b);
    assert(Seq::<Seq<char>>::empty().push(b) =~= seq![b]);
    let x = a + seq![sep];
    assert(x.drop_last() =~= a);
    assert(x.last() == sep);
    lemma_split_scan_without_sep(x, b, sep);
    assert(Seq::<char>::empty() + b =~= b);
    if !a.contains(sep) {
        lemma_split_scan_without_sep(Seq::<char>::empty(), a, sep);
        assert(Seq::<char>::empty() + a =~= a);
        assert(split_scan(a, sep) == (Seq::<Seq<char>>::empty(), a));
        assert(Seq::<Seq<char>>::empty().push(a).push(b) =~= seq![a, b]);
    }
}

/// The words one after the other, with nothing between them.
pub open spec fn concat(words: Seq<Seq<char>>) -> Seq<char>
    decreases words.len(),
{
    if words.len() == 0 {
        seq![]
    } else {
        concat(words.drop_last()) + words.last()
    }
}

/// The characters of `s` that are not whitespace, in order.
pub open spec fn non_white_chars(s: Seq<char>) -> Seq<char>
    decreases s.len(),
{
    if s.len() == 0 {
        seq![]
    } else if is_white_space(s.last()) {
        non_white_chars(s.drop_last())
    } else {
        non_white_chars(s.drop_last()).push(s.last())
    }
}

/// Whether each of `words` is not empty and holds no whitespace.
pub open spec fn proper_words(words: Seq<Seq<char>>) -> bool {
    forall|i: int| 0 <= i < words.len() ==> {
        &&& #[trigger] words[i].len() > 0
        &&& forall|j: int| 0 <= j < words[i].len() ==> !is_white_space(#[trigger] words[i][j])
    }
}

proof fn lemma_words_scan(s: Seq<char>)
    ensures
        concat(words_scan(s).0) + words_scan(s).1 == non_white_chars(s),
        proper_words(words_scan(s).0),
        forall|j: int|
            0 <= j < words_scan(s).1.len() ==> !is_white_space(#[trigger] words_scan(s).1[j]),
    decreases s.len(),
{
    if s.len() > 0 {
        let t = s.drop_last();
        let x = s.last();
        lemma_words_scan(t);
        let (d, c) = words_scan(t);
        if is_white_space(x) {
            if c.len() > 0 {
                let d2 = d.push(c);
                assert(d2.drop_last() =~= d);
                assert(concat(d2) + Seq::<char>::empty() =~= concat(d) + c);
                assert forall|i: int| 0 <= i < d2.len() implies {
                    &&& #[trigger] d2[i].len() > 0
                    &&& forall|j: int| 0 <= j < d2[i].len() ==> !is_white_space(
                        #[trigger] d2[i][j],
                    )
                } by {
                    if i < d.len() {
                        assert(d2[i] == d[i]);
                    } else {
                        assert(d2[i] == c);
                    }
                }
            }
        } else {
            assert(concat(d) + c.push(x) =~= (concat(d) + c).push(x));
            assert forall|j: int| 0 <= j < c.push(x).len() implies !is_white_space(
                #[trigger] c.push(x)[j],
            ) by {
                if j < c.len() {
                    assert(c.push(x)[j] == c[j]);
                }
            }
        }
    }
}

/// Law: the words of a text hold every character of it that is not
/// whitespace, in order, and nothing else: put end to end they give the
/// text with its whitespace removed, and each word is non-empty and holds
/// no whitespace.
pub proof fn lemma_words_keep_every_other_char(s: Seq<char>)
    ensures
        concat(words(s)) == non_white_chars(s),
        proper_words(words(s)),
{
    lemma_words_scan(s);
    let (d, c) = words_scan(s);
    if c.len() > 0 {
        let w = d.push(c);
        assert(w.drop_last() =~= d);
        assert forall|i: int| 0 <= i < w.len() implies {
            &&& #[trigger] w[i].len() > 0
            &&& forall|j: int| 0 <= j < w[i].len() ==> !is_white_space(#[trigger] w[i][j])
        } by {
            if i < d.len() {
                assert(w[i] == d[i]);
            } else {
                assert(w[i] == c);
            }
        }
    } else {
        assert(concat(d) + c =~= concat(d));
    }
}

/// Law: among ASCII characters, exactly the space and the controls from tab
/// to carriage return (U+0009 to U+000D) are whitespace; in particular no
/// printable ASCII character other than the space is.
pub proof fn lemma_ascii_white_space(c: char)
    requires
        (c as u32) < 0x80,
    ensures
        is_white_space(c) <==> (c == ' ' || c == '\t' || c == '\n' || c == '\u{b}' || c
            == '\u{c}' || c == '\r'),
        0x21 <= (c as u32) <= 0x7e ==> !is_white_space(c),
{
}

/// Law: the non-ASCII whitespace characters are exactly U+0085, U+00A0,
/// U+1680, U+2000 to U+200A, U+2028, U+2029, U+202F, U+205F and U+3000.
pub proof fn lemma_non_ascii_white_space(c: char)
    requires
        (c as u32) >= 0x80,
    ensures
        is_white_space(c) <==> ({
            let v = c as u32;
            ||| v == 0x85
            ||| v == 0xa0
            ||| v == 0x1680
            ||| 0x2000 <= v <= 0x200a
            ||| v == 0x2028
            ||| v == 0x2029
            ||| v == 0x202f
            ||| v == 0x205f
            ||| v == 0x3000
        }),
{
}

} // verus!
