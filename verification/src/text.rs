//! Cutting text into pieces: lines, words, the parts of a header line. Text
//! is a sequence of characters throughout; what counts as white space is what
//! Unicode marks as such.

use vstd::prelude::*;

verus! {

/// True of carriage return and line feed.
pub open spec fn is_line_break(c: char) -> bool {
    c == '\r' || c == '\n'
}

/// True of the characters with the Unicode property `White_Space`.
pub open spec fn is_whitespace(c: char) -> bool {
    let n = c as u32;
    ||| 0x09 <= n <= 0x0D
    ||| n == 0x20
    ||| n == 0x85
    ||| n == 0xA0
    ||| n == 0x1680
    ||| 0x2000 <= n <= 0x200A
    ||| n == 0x2028
    ||| n == 0x2029
    ||| n == 0x202F
    ||| n == 0x205F
    ||| n == 0x3000
}

/// What text is cut at.
#[derive(Clone, Copy, Debug, PartialEq, Eq, Structural)]
pub enum Separator {
    /// Carriage return or line feed.
    LineBreak,
    /// Any white space.
    Whitespace,
    /// The colon.
    Colon,
}

impl Separator {
    /// True when `c` is a character that this separator cuts at.
    pub open spec fn separates(self, c: char) -> bool {
        match self {
            Separator::LineBreak => is_line_break(c),
            Separator::Whitespace => is_whitespace(c),
            Separator::Colon => c == ':',
        }
    }

    /// True when `c` is a character that this separator cuts at.
    pub fn cuts_at(self, c: char) -> (r: bool)
        ensures
            r == self.separates(c),
    {
        match self {
            Separator::LineBreak => c == '\r' || c == '\n',
            Separator::Whitespace => whitespace(c),
            Separator::Colon => c == ':',
        }
    }
}

/// True when `c` is white space.
pub fn whitespace(c: char) -> (r: bool)
    ensures
        r == is_whitespace(c),
{
    let n = c as u32;
    (0x09 <= n && n <= 0x0D) || n == 0x20 || n == 0x85 || n == 0xA0 || n == 0x1680 || (0x2000 <= n
        && n <= 0x200A) || n == 0x2028 || n == 0x2029 || n == 0x202F || n == 0x205F || n == 0x3000
}

/// How many characters at the front of `s` come before the first separator:
/// all of them if there is none.
pub open spec fn run_len(s: Seq<char>, sep: Separator) -> nat
    decreases s.len(),
{
    if s.len() == 0 || sep.separates(s[0]) {
        0
    } else {
        1 + run_len(s.skip(1), sep)
    }
}

/// The fields of `s`: its longest stretches without a separator, in order.
/// No field is empty; separators next to each other, and those at either
/// end, yield nothing.
pub open spec fn fields(s: Seq<char>, sep: Separator) -> Seq<Seq<char>>
    decreases s.len(),
{
    if s.len() == 0 {
        Seq::empty()
    } else if sep.separates(s[0]) {
        fields(s.skip(1), sep)
    } else {
        let n = run_len(s, sep);
        proof {
            lemma_run_len_bounds(s, sep);
        }
        seq![s.take(n as int)] + fields(s.skip(n as int), sep)
    }
}

/// The parts of `s`: what stands between its separators, in order, empty
/// parts included. Text with n separators has n + 1 parts.
pub open spec fn parts(s: Seq<char>, sep: Separator) -> Seq<Seq<char>>
    decreases s.len(),
{
    let n = run_len(s, sep);
    if n >= s.len() {
        seq![s]
    } else {
        seq![s.take(n as int)] + parts(s.skip(n as int + 1), sep)
    }
}

/// `s` without the white space at its front.
pub open spec fn trim_start(s: Seq<char>) -> Seq<char>
    decreases s.len(),
{
    if s.len() > 0 && is_whitespace(s[0]) {
        trim_start(s.skip(1))
    } else {
        s
    }
}

/// `s` without the white space at its end.
pub open spec fn trim_end(s: Seq<char>) -> Seq<char>
    decreases s.len(),
{
    if s.len() > 0 && is_whitespace(s.last()) {
        trim_end(s.drop_last())
    } else {
        s
    }
}

/// `s` without the white space at either end.
pub open spec fn trim(s: Seq<char>) -> Seq<char> {
    trim_end(trim_start(s))
}

/// Each piece of `pieces` trimmed.
pub open spec fn trim_each(pieces: Seq<Seq<char>>) -> Seq<Seq<char>> {
    Seq::new(pieces.len(), |i: int| trim(pieces[i]))
}

/// The pieces of `pieces` that are not empty, in order.
pub open spec fn non_empty(pieces: Seq<Seq<char>>) -> Seq<Seq<char>> {
    pieces.filter(|piece: Seq<char>| piece.len() > 0)
}

/// The texts that a vector of character vectors holds.
pub open spec fn texts(pieces: Seq<Vec<char>>) -> Seq<Seq<char>> {
    Seq::new(pieces.len(), |i: int| pieces[i]@)
}

/// The run at the front of a text ends inside the text, and is not empty
/// unless the text is empty or opens with a separator.
pub proof fn lemma_run_len_bounds(s: Seq<char>, sep: Separator)
    ensures
        run_len(s, sep) <= s.len(),
        s.len() > 0 && !sep.separates(s[0]) ==> run_len(s, sep) >= 1,
    decreases s.len(),
{
    if s.len() > 0 && !sep.separates(s[0]) {
        lemma_run_len_bounds(s.skip(1), sep);
    }
}

/// The run at the front of a text is pinned down by where it ends: at the
/// first separator, or at the end of the text.
pub proof fn lemma_run_len_is(s: Seq<char>, sep: Separator, n: int)
    requires
        0 <= n <= s.len(),
        forall|k: int| 0 <= k < n ==> !sep.separates(s[k]),
        n == s.len() || sep.separates(s[n]),
    ensures
        run_len(s, sep) == n,
    decreases n,
{
    if n > 0 {
        let rest = s.skip(1);
        assert forall|k: int| 0 <= k < n - 1 implies !sep.separates(rest[k]) by {
            assert(rest[k] == s[k + 1]);
        }
        lemma_run_len_is(rest, sep, n - 1);
    }
}

/// True of a piece of text that is not empty and holds no separator.
pub open spec fn is_field(piece: Seq<char>, sep: Separator) -> bool {
    piece.len() > 0 && forall|k: int| 0 <= k < piece.len() ==> !sep.separates(#[trigger] piece[k])
}

/// No field is empty or holds a separator.
pub proof fn lemma_fields_are_clean(s: Seq<char>, sep: Separator)
    ensures
        forall|i: int| 0 <= i < fields(s, sep).len() ==> is_field(#[trigger] fields(s, sep)[i], sep),
    decreases s.len(),
{
    if s.len() == 0 {
        assert(fields(s, sep).len() == 0);
    } else if sep.separates(s[0]) {
        lemma_fields_are_clean(s.skip(1), sep);
        assert(fields(s, sep) == fields(s.skip(1), sep));
    } else {
        let n = run_len(s, sep);
        lemma_run_len_bounds(s, sep);
        lemma_run_is_clean(s, sep);
        lemma_fields_are_clean(s.skip(n as int), sep);
        let rest = fields(s.skip(n as int), sep);
        let all = fields(s, sep);
        assert(all == seq![s.take(n as int)] + rest);
        assert forall|i: int| 0 <= i < all.len() implies is_field(#[trigger] all[i], sep) by {
            if i > 0 {
                assert(all[i] == rest[i - 1]);
            } else {
                assert(all[0] == s.take(n as int));
            }
        }
    }
}

/// The run at the front of a text holds no separator.
pub proof fn lemma_run_is_clean(s: Seq<char>, sep: Separator)
    ensures
        run_len(s, sep) <= s.len(),
        forall|k: int| 0 <= k < run_len(s, sep) ==> !sep.separates(s[k]),
        run_len(s, sep) == s.len() || sep.separates(s[run_len(s, sep) as int]),
    decreases s.len(),
{
    if s.len() > 0 && !sep.separates(s[0]) {
        let rest = s.skip(1);
        lemma_run_is_clean(rest, sep);
        assert forall|k: int| 0 <= k < run_len(s, sep) implies !sep.separates(s[k]) by {
            if k > 0 {
                assert(s[k] == rest[k - 1]);
            }
        }
        if run_len(s, sep) < s.len() {
            assert(s[run_len(s, sep) as int] == rest[run_len(rest, sep) as int]);
        }
    }
}

/// Trimming at the front drops exactly the leading white space.
pub proof fn lemma_trim_start_is(s: Seq<char>, k: int)
    requires
        0 <= k <= s.len(),
        forall|i: int| 0 <= i < k ==> is_whitespace(s[i]),
        k == s.len() || !is_whitespace(s[k]),
    ensures
        trim_start(s) == s.skip(k),
    decreases k,
{
    if k > 0 {
        let rest = s.skip(1);
        assert forall|i: int| 0 <= i < k - 1 implies is_whitespace(rest[i]) by {
            assert(rest[i] == s[i + 1]);
        }
        lemma_trim_start_is(rest, k - 1);
        assert(rest.skip(k - 1) =~= s.skip(k));
    } else {
        assert(s.skip(0) =~= s);
    }
}

/// Trimming at the end drops exactly the trailing white space.
pub proof fn lemma_trim_end_is(s: Seq<char>, k: int)
    requires
        0 <= k <= s.len(),
        forall|i: int| k <= i < s.len() ==> is_whitespace(s[i]),
        k == 0 || !is_whitespace(s[k - 1]),
    ensures
        trim_end(s) == s.take(k),
    decreases s.len() - k,
{
    if k < s.len() {
        let front = s.drop_last();
        lemma_trim_end_is(front, k);
        assert(front.take(k) =~= s.take(k));
    } else {
        assert(s.take(k) =~= s);
    }
}

/// The characters of a string.
pub fn chars_of(text: &str) -> (chars: Vec<char>)
    ensures
        chars@ == text@,
{
    let mut chars: Vec<char> = Vec::new();
    for c in it: text.chars()
        invariant
            chars@ == text@.take(it.index() as int),
            it.seq() == text@,
    {
        chars.push(c);
        assert(chars@ =~= text@.take(it.index() + 1));
    }
    assert(chars@ =~= text@);
    chars
}

/// Where the run that starts at `from` ends: at the first separator at or
/// after `from`, or at the end of the text.
fn run_end(chars: &[char], from: usize, sep: Separator) -> (end: usize)
    requires
        from <= chars@.len(),
    ensures
        from <= end <= chars@.len(),
        end - from == run_len(chars@.skip(from as int), sep),
{
    let mut end = from;
    while end < chars.len() && !sep.cuts_at(chars[end])
        invariant
            from <= end <= chars@.len(),
            forall|k: int| from <= k < end ==> !sep.separates(chars@[k]),
        decreases chars@.len() - end,
    {
        end = end + 1;
    }
    proof {
        lemma_run_len_is(chars@.skip(from as int), sep, end - from);
    }
    end
}

/// Cuts `chars` into its fields.
pub fn split_fields(chars: &[char], sep: Separator) -> (out: Vec<Vec<char>>)
    ensures
        texts(out@) == fields(chars@, sep),
{
    let mut out: Vec<Vec<char>> = Vec::new();
    let mut i: usize = 0;
    assert(chars@.skip(0) =~= chars@);
    assert(texts(out@) =~= Seq::<Seq<char>>::empty());
    while i < chars.len()
        invariant
            i <= chars@.len(),
            texts(out@) + fields(chars@.skip(i as int), sep) == fields(chars@, sep),
        decreases chars@.len() - i,
    {
        let ghost here = chars@.skip(i as int);
        if sep.cuts_at(chars[i]) {
            assert(here.skip(1) =~= chars@.skip(i + 1));
            i = i + 1;
        } else {
            let end = run_end(chars, i, sep);
            let field = vstd::slice::slice_to_vec(vstd::slice::slice_subrange(chars, i, end));
            proof {
                lemma_run_len_bounds(here, sep);
                assert(here.take(end - i) =~= field@);
                assert(here.skip(end - i) =~= chars@.skip(end as int));
                assert(texts(out@.push(field)) =~= texts(out@).push(field@));
                assert(texts(out@).push(field@) + fields(chars@.skip(end as int), sep) =~= texts(
                    out@,
                ) + (seq![field@] + fields(chars@.skip(end as int), sep)));
            }
            out.push(field);
            i = end;
        }
    }
    assert(texts(out@) + fields(chars@.skip(i as int), sep) =~= texts(out@));
    out
}

/// Cuts `chars` into its parts.
pub fn split_parts(chars: &[char], sep: Separator) -> (out: Vec<Vec<char>>)
    ensures
        texts(out@) == parts(chars@, sep),
{
    let mut out: Vec<Vec<char>> = Vec::new();
    let mut i: usize = 0;
    assert(chars@.skip(0) =~= chars@);
    assert(texts(out@) =~= Seq::<Seq<char>>::empty());
    loop
        invariant_except_break
            i <= chars@.len(),
            texts(out@) + parts(chars@.skip(i as int), sep) == parts(chars@, sep),
        ensures
            texts(out@) == parts(chars@, sep),
        decreases chars@.len() - i,
    {
        let ghost here = chars@.skip(i as int);
        let end = run_end(chars, i, sep);
        let part = vstd::slice::slice_to_vec(vstd::slice::slice_subrange(chars, i, end));
        proof {
            assert(here.take(end - i) =~= part@);
            assert(texts(out@.push(part)) =~= texts(out@).push(part@));
        }
        if end == chars.len() {
            proof {
                assert(here.take(end - i) =~= here);
                assert(texts(out@).push(part@) =~= texts(out@) + seq![here]);
            }
            out.push(part);
            break;
        }
        proof {
            assert(here.skip(end - i + 1) =~= chars@.skip(end + 1));
            assert(texts(out@).push(part@) + parts(chars@.skip(end + 1), sep) =~= texts(out@) + (
            seq![part@] + parts(chars@.skip(end + 1), sep)));
        }
        out.push(part);
        i = end + 1;
    }
    out
}

/// `chars` without the white space at either end.
pub fn trimmed(chars: &[char]) -> (out: Vec<char>)
    ensures
        out@ == trim(chars@),
{
    let mut from: usize = 0;
    while from < chars.len() && whitespace(chars[from])
        invariant
            from <= chars@.len(),
            forall|k: int| 0 <= k < from ==> is_whitespace(chars@[k]),
        decreases chars@.len() - from,
    {
        from = from + 1;
    }
    let mut to: usize = chars.len();
    while to > from && whitespace(chars[to - 1])
        invariant
            from <= to <= chars@.len(),
            forall|k: int| to <= k < chars@.len() ==> is_whitespace(chars@[k]),
        decreases to,
    {
        to = to - 1;
    }
    let out = vstd::slice::slice_to_vec(vstd::slice::slice_subrange(chars, from, to));
    proof {
        let front = chars@.skip(from as int);
        lemma_trim_start_is(chars@, from as int);
        assert forall|k: int| to - from <= k < front.len() implies is_whitespace(front[k]) by {
            assert(front[k] == chars@[k + from]);
        }
        if to > from {
            assert(front[to - from - 1] == chars@[to - 1]);
        }
        lemma_trim_end_is(front, to - from);
        assert(front.take(to - from) =~= out@);
    }
    out
}

/// Each of `pieces` without the white space at either end.
pub fn trimmed_each(pieces: &Vec<Vec<char>>) -> (out: Vec<Vec<char>>)
    ensures
        texts(out@) == trim_each(texts(pieces@)),
{
    let mut out: Vec<Vec<char>> = Vec::new();
    let mut i: usize = 0;
    while i < pieces.len()
        invariant
            i <= pieces@.len(),
            out@.len() == i,
            forall|k: int| 0 <= k < i ==> (#[trigger] out@[k])@ == trim(pieces@[k]@),
        decreases pieces@.len() - i,
    {
        let piece = trimmed(pieces[i].as_slice());
        out.push(piece);
        i = i + 1;
    }
    assert(texts(out@) =~= trim_each(texts(pieces@)));
    out
}

/// Dropping the empty pieces leaves no empty piece, and never more pieces
/// than there were.
pub proof fn lemma_non_empty_holds_none_empty(pieces: Seq<Seq<char>>)
    ensures
        non_empty(pieces).len() <= pieces.len(),
        forall|i: int| 0 <= i < non_empty(pieces).len() ==> (#[trigger] non_empty(pieces)[i]).len() > 0,
{
    let keep = |piece: Seq<char>| piece.len() > 0;
    pieces.lemma_filter_len(keep);
    assert forall|i: int| 0 <= i < non_empty(pieces).len() implies (#[trigger] non_empty(
        pieces,
    )[i]).len() > 0 by {
        pieces.lemma_filter_pred(keep, i);
    }
}

/// Trimmed text neither opens nor closes with white space.
pub proof fn lemma_trim_has_clean_ends(s: Seq<char>)
    ensures
        trim(s).len() > 0 ==> !is_whitespace(trim(s)[0]) && !is_whitespace(trim(s).last()),
{
    lemma_trim_start_opens_clean(s);
    lemma_trim_end_keeps_front(trim_start(s));
}

/// Text trimmed at the front does not open with white space.
proof fn lemma_trim_start_opens_clean(s: Seq<char>)
    ensures
        trim_start(s).len() > 0 ==> !is_whitespace(trim_start(s)[0]),
    decreases s.len(),
{
    if s.len() > 0 && is_whitespace(s[0]) {
        lemma_trim_start_opens_clean(s.skip(1));
    }
}

/// Text trimmed at the end is a front part of the text and does not close
/// with white space.
proof fn lemma_trim_end_keeps_front(s: Seq<char>)
    ensures
        trim_end(s).len() <= s.len(),
        trim_end(s) == s.take(trim_end(s).len() as int),
        trim_end(s).len() > 0 ==> !is_whitespace(trim_end(s).last()),
    decreases s.len(),
{
    if s.len() > 0 && is_whitespace(s.last()) {
        let front = s.drop_last();
        lemma_trim_end_keeps_front(front);
        assert(front.take(trim_end(front).len() as int) =~= s.take(trim_end(front).len() as int));
    } else {
        assert(s.take(s.len() as int) =~= s);
    }
}

/// Text that is not empty once trimmed holds at least one word.
pub proof fn lemma_trimmed_text_has_a_word(s: Seq<char>)
    requires
        trim(s).len() > 0,
    ensures
        fields(trim(s), Separator::Whitespace).len() >= 1,
{
    lemma_trim_has_clean_ends(s);
    lemma_run_len_bounds(trim(s), Separator::Whitespace);
}

/// Each of `pieces` without the white space at either end, those left out
/// that are empty once trimmed.
pub fn trimmed_non_empty(pieces: &Vec<Vec<char>>) -> (out: Vec<Vec<char>>)
    ensures
        texts(out@) == non_empty(trim_each(texts(pieces@))),
{
    let mut out: Vec<Vec<char>> = Vec::new();
    let mut i: usize = 0;
    let ghost all = trim_each(texts(pieces@));
    proof {
        reveal(Seq::filter);
        assert(all.take(0) =~= Seq::<Seq<char>>::empty());
        assert(texts(out@) =~= non_empty(all.take(0)));
    }
    while i < pieces.len()
        invariant
            i <= pieces@.len(),
            all == trim_each(texts(pieces@)),
            texts(out@) == non_empty(all.take(i as int)),
        decreases pieces@.len() - i,
    {
        let piece = trimmed(pieces[i].as_slice());
        proof {
            reveal(Seq::filter);
            let next = all.take(i + 1);
            assert(next.drop_last() =~= all.take(i as int));
            assert(next.last() == piece@);
            if piece@.len() > 0 {
                assert(texts(out@.push(piece)) =~= texts(out@).push(piece@));
            }
        }
        if piece.len() > 0 {
            out.push(piece);
        }
        i = i + 1;
    }
    assert(all.take(i as int) =~= all);
    out
}

} // verus!
