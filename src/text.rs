//! Text handling shared by the extraction steps: whitespace normalization and
//! the delimiter grammar of relationship cells.
use vstd::prelude::*;

verus! {

/// Unicode `White_Space`: the characters that `char::is_whitespace` accepts.
pub open spec fn is_space(c: char) -> bool {
    let u = c as u32;
    (0x09 <= u && u <= 0x0D) || u == 0x20 || u == 0x85 || u == 0xA0 || u == 0x1680
        || (0x2000 <= u && u <= 0x200A) || u == 0x2028 || u == 0x2029 || u == 0x202F
        || u == 0x205F || u == 0x3000
}

/// A text is blank when it holds whitespace only (the empty text included).
pub open spec fn is_blank(s: Seq<char>) -> bool {
    forall|i: int| 0 <= i < s.len() ==> is_space(#[trigger] s[i])
}

/// Each maximal run of whitespace becomes a single space.
pub open spec fn collapse(s: Seq<char>) -> Seq<char>
    decreases s.len(),
{
    if s.len() == 0 {
        s
    } else {
        let init = s.drop_last();
        let c = s.last();
        if is_space(c) && init.len() > 0 && is_space(init.last()) {
            collapse(init)
        } else if is_space(c) {
            collapse(init).push(' ')
        } else {
            collapse(init).push(c)
        }
    }
}

pub open spec fn trim_start(s: Seq<char>) -> Seq<char>
    decreases s.len(),
{
    if s.len() > 0 && is_space(s[0]) {
        trim_start(s.subrange(1, s.len() as int))
    } else {
        s
    }
}

pub open spec fn trim_end(s: Seq<char>) -> Seq<char>
    decreases s.len(),
{
    if s.len() > 0 && is_space(s.last()) {
        trim_end(s.drop_last())
    } else {
        s
    }
}

/// Leading and trailing whitespace removed.
pub open spec fn trim(s: Seq<char>) -> Seq<char> {
    trim_end(trim_start(s))
}

/// Whitespace runs collapsed to one space, then trimmed.
pub open spec fn normalize(s: Seq<char>) -> Seq<char> {
    trim(collapse(s))
}

pub open spec fn sells_to() -> Seq<char> {
    seq!['s', 'e', 'l', 'l', 's', ' ', 't', 'o']
}

/// Length of the field delimiter (` - `, `sells to` or `/`) that starts at `i`, or 0.
pub open spec fn delimiter_len(s: Seq<char>, i: int) -> int {
    if 0 <= i && i + 3 <= s.len() && s[i] == ' ' && s[i + 1] == '-' && s[i + 2] == ' ' {
        3
    } else if 0 <= i && i + 8 <= s.len() && s.subrange(i, i + 8) == sells_to() {
        8
    } else if 0 <= i && i < s.len() && s[i] == '/' {
        1
    } else {
        0
    }
}

/// The pieces of `s` from `start` on, scanning from `i` for the leftmost delimiter.
pub open spec fn split_from(s: Seq<char>, start: int, i: int) -> Seq<Seq<char>>
    decreases s.len() - i,
{
    if !(0 <= start <= i) || i >= s.len() {
        seq![s.subrange(start, s.len() as int)]
    } else if delimiter_len(s, i) > 0 {
        let next = i + delimiter_len(s, i);
        seq![s.subrange(start, i)].add(split_from(s, next, next))
    } else {
        split_from(s, start, i + 1)
    }
}

/// `s` cut at every non-overlapping delimiter, leftmost first.
pub open spec fn split_fields(s: Seq<char>) -> Seq<Seq<char>> {
    split_from(s, 0, 0)
}

/// The trimmed pieces that are not blank, in order.
pub open spec fn kept_pieces(ps: Seq<Seq<char>>) -> Seq<Seq<char>>
    decreases ps.len(),
{
    if ps.len() == 0 {
        Seq::empty()
    } else {
        let rest = kept_pieces(ps.drop_last());
        if is_blank(ps.last()) {
            rest
        } else {
            rest.push(trim(ps.last()))
        }
    }
}

/// The fields that one text token of a relationship cell contributes.
pub open spec fn token_fields(t: Seq<char>) -> Seq<Seq<char>> {
    kept_pieces(split_fields(collapse(t)))
}

proof fn lemma_trim_start_keeps(s: Seq<char>)
    requires
        !is_blank(s),
    ensures
        !is_blank(trim_start(s)),
    decreases s.len(),
{
    if s.len() > 0 && is_space(s[0]) {
        let rest = s.subrange(1, s.len() as int);
        let i = choose|i: int| 0 <= i < s.len() && !is_space(#[trigger] s[i]);
        assert(rest[i - 1] == s[i]);
        lemma_trim_start_keeps(rest);
    }
}

proof fn lemma_trim_end_keeps(s: Seq<char>)
    requires
        !is_blank(s),
    ensures
        !is_blank(trim_end(s)),
    decreases s.len(),
{
    if s.len() > 0 && is_space(s.last()) {
        let rest = s.drop_last();
        let i = choose|i: int| 0 <= i < s.len() && !is_space(#[trigger] s[i]);
        assert(rest[i] == s[i]);
        lemma_trim_end_keeps(rest);
    }
}

/// Trimming a text that is not blank leaves a text that is not blank.
pub proof fn lemma_trim_not_blank(s: Seq<char>)
    requires
        !is_blank(s),
    ensures
        !is_blank(trim(s)),
{
    lemma_trim_start_keeps(s);
    lemma_trim_end_keeps(trim_start(s));
}

/// No kept piece is blank.
pub proof fn lemma_kept_not_blank(ps: Seq<Seq<char>>)
    ensures
        forall|k: int| 0 <= k < kept_pieces(ps).len() ==> !is_blank(#[trigger] kept_pieces(ps)[k]),
    decreases ps.len(),
{
    if ps.len() > 0 {
        let prev = kept_pieces(ps.drop_last());
        lemma_kept_not_blank(ps.drop_last());
        if !is_blank(ps.last()) {
            lemma_trim_not_blank(ps.last());
            assert forall|k: int| 0 <= k < kept_pieces(ps).len() implies !is_blank(
                #[trigger] kept_pieces(ps)[k],
            ) by {
                if k < prev.len() {
                    assert(kept_pieces(ps)[k] == prev[k]);
                }
            }
        }
    }
}

pub open spec fn views(v: Seq<Vec<char>>) -> Seq<Seq<char>> {
    v.map_values(|p: Vec<char>| p@)
}

pub fn is_space_char(c: char) -> (r: bool)
    ensures
        r == is_space(c),
{
    let u = c as u32;
    (0x09 <= u && u <= 0x0D) || u == 0x20 || u == 0x85 || u == 0xA0 || u == 0x1680 || (0x2000
        <= u && u <= 0x200A) || u == 0x2028 || u == 0x2029 || u == 0x202F || u == 0x205F || u
        == 0x3000
}

pub fn is_blank_text(s: &Vec<char>) -> (r: bool)
    ensures
        r == is_blank(s@),
{
    let mut i: usize = 0;
    while i < s.len()
        invariant
            i <= s.len(),
            forall|k: int| 0 <= k < i ==> is_space(#[trigger] s@[k]),
        decreases s.len() - i,
    {
        if !is_space_char(s[i]) {
            return false;
        }
        i = i + 1;
    }
    true
}

pub fn collapse_spaces(s: &Vec<char>) -> (r: Vec<char>)
    ensures
        r@ == collapse(s@),
{
    let mut out: Vec<char> = Vec::new();
    let mut i: usize = 0;
    while i < s.len()
        invariant
            i <= s.len(),
            out@ == collapse(s@.subrange(0, i as int)),
        decreases s.len() - i,
    {
        let c = s[i];
        assert(s@.subrange(0, i + 1).drop_last() == s@.subrange(0, i as int));
        if is_space_char(c) {
            if !(i > 0 && is_space_char(s[i - 1])) {
                out.push(' ');
            }
        } else {
            out.push(c);
        }
        i = i + 1;
    }
    assert(s@.subrange(0, s@.len() as int) == s@);
    out
}

/// Copies `s[from..to]`.
pub fn copy_range(s: &Vec<char>, from: usize, to: usize) -> (r: Vec<char>)
    requires
        from <= to <= s.len(),
    ensures
        r@ == s@.subrange(from as int, to as int),
{
    let mut out: Vec<char> = Vec::new();
    let mut i: usize = from;
    while i < to
        invariant
            from <= i <= to <= s.len(),
            out@ == s@.subrange(from as int, i as int),
        decreases to - i,
    {
        out.push(s[i]);
        i = i + 1;
        assert(out@ == s@.subrange(from as int, i as int));
    }
    out
}

pub fn trim_spaces(s: &Vec<char>) -> (r: Vec<char>)
    ensures
        r@ == trim(s@),
{
    let n = s.len();
    let mut a: usize = 0;
    assert(s@.subrange(0, n as int) == s@);
    while a < n && is_space_char(s[a])
        invariant
            a <= n == s.len(),
            trim_start(s@) == trim_start(s@.subrange(a as int, n as int)),
        decreases n - a,
    {
        assert(s@.subrange(a as int, n as int).subrange(1, (n - a) as int) == s@.subrange(
            a + 1,
            n as int,
        ));
        a = a + 1;
    }
    let mut b: usize = n;
    while b > a && is_space_char(s[b - 1])
        invariant
            a <= b <= n == s.len(),
            trim_start(s@) == s@.subrange(a as int, n as int),
            trim_end(s@.subrange(a as int, n as int)) == trim_end(s@.subrange(a as int, b as int)),
        decreases b,
    {
        assert(s@.subrange(a as int, b as int).drop_last() == s@.subrange(a as int, b - 1));
        b = b - 1;
    }
    copy_range(s, a, b)
}

/// Whitespace-normalized copy of a text token.
pub fn normalize_text(s: &Vec<char>) -> (r: Vec<char>)
    ensures
        r@ == normalize(s@),
{
    let c = collapse_spaces(s);
    trim_spaces(&c)
}

fn delimiter_len_at(s: &Vec<char>, i: usize) -> (r: usize)
    requires
        i < s.len(),
    ensures
        r as int == delimiter_len(s@, i as int),
        i + r <= s.len(),
{
    let n = s.len();
    if n - i >= 3 && s[i] == ' ' && s[i + 1] == '-' && s[i + 2] == ' ' {
        return 3;
    }
    if n - i >= 8 && s[i] == 's' && s[i + 1] == 'e' && s[i + 2] == 'l' && s[i + 3] == 'l' && s[i
        + 4] == 's' && s[i + 5] == ' ' && s[i + 6] == 't' && s[i + 7] == 'o' {
        assert(s@.subrange(i as int, i + 8) == sells_to());
        return 8;
    }
    if n - i >= 8 {
        let ghost w = s@.subrange(i as int, i + 8);
        assert(w != sells_to() || (w[0] == 's' && w[1] == 'e' && w[2] == 'l' && w[3] == 'l'
            && w[4] == 's' && w[5] == ' ' && w[6] == 't' && w[7] == 'o'));
    }
    if s[i] == '/' {
        return 1;
    }
    0
}

/// Cuts `s` at every delimiter, leftmost first; the pieces between them are
/// kept as they are, empty ones included.
pub fn split_on_delimiters(s: &Vec<char>) -> (r: Vec<Vec<char>>)
    ensures
        views(r@) == split_fields(s@),
{
    let n = s.len();
    let mut out: Vec<Vec<char>> = Vec::new();
    let mut start: usize = 0;
    let mut i: usize = 0;
    while i < n
        invariant
            n == s.len(),
            start <= i <= n,
            split_fields(s@) == views(out@) + split_from(s@, start as int, i as int),
        decreases n - i,
    {
        let d = delimiter_len_at(s, i);
        if d > 0 {
            let piece = copy_range(s, start, i);
            proof {
                let rest = split_from(s@, (i + d) as int, (i + d) as int);
                assert(views(out@.push(piece)) == views(out@).push(piece@));
                assert(views(out@) + split_from(s@, start as int, i as int) == views(
                    out@.push(piece),
                ) + rest);
            }
            out.push(piece);
            i = i + d;
            start = i;
        } else {
            i = i + 1;
        }
    }
    let last = copy_range(s, start, n);
    proof {
        assert(views(out@.push(last)) == views(out@).push(last@));
        assert(views(out@) + seq![last@] == views(out@).push(last@));
    }
    out.push(last);
    out
}

/// The fields one text token contributes: its pieces between delimiters,
/// trimmed, blank ones left out.
pub fn fields_of_token(t: &Vec<char>) -> (r: Vec<Vec<char>>)
    ensures
        views(r@) == token_fields(t@),
{
    let c = collapse_spaces(t);
    let pieces = split_on_delimiters(&c);
    let mut out: Vec<Vec<char>> = Vec::new();
    let mut k: usize = 0;
    while k < pieces.len()
        invariant
            k <= pieces.len(),
            views(pieces@) == split_fields(c@),
            views(out@) == kept_pieces(views(pieces@).subrange(0, k as int)),
        decreases pieces.len() - k,
    {
        let ghost ps = views(pieces@).subrange(0, k + 1);
        assert(ps.drop_last() == views(pieces@).subrange(0, k as int));
        assert(ps.last() == pieces@[k as int]@);
        if !is_blank_text(&pieces[k]) {
            let p = trim_spaces(&pieces[k]);
            assert(views(out@.push(p)) == views(out@).push(p@));
            out.push(p);
        }
        k = k + 1;
    }
    assert(views(pieces@).subrange(0, pieces@.len() as int) == views(pieces@));
    out
}

/// Relies on `String`'s `FromIterator<&char>`: the string holds the characters
/// in the order given.
#[verifier::external_body]
pub(crate) fn string_of(v: &Vec<char>) -> (r: String)
    ensures
        r@ == v@,
{
    v.iter().collect()
}

} // verus!
