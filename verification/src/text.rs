//! Text handling over sequences of characters.
//!
//! The library reasons about text as `Seq<char>`. Executable code holds text
//! as `Vec<char>` while it works on it and as `String` at its boundary.

use vstd::prelude::*;

verus! {

/// `String::push` appends one character.
pub assume_specification[ String::push ](s: &mut String, c: char)
    ensures
        final(s)@ == old(s)@.push(c),
;

/// What `str::to_lowercase` returns for the text `s`.
pub uninterp spec fn lowercase_of(s: Seq<char>) -> Seq<char>;

/// The lowercase form of `s`, as `str::to_lowercase` computes it from the
/// Unicode case mappings. Nothing is claimed of the result but that it is a
/// function of the text.
#[verifier::external_body]
pub(crate) fn lowercase(s: &str) -> (r: String)
    ensures
        r@ == lowercase_of(s@),
{
    s.to_lowercase()
}

/// The characters of `s`, in order.
pub fn chars_of(s: &str) -> (v: Vec<char>)
    ensures
        v@ == s@,
{
    let mut v: Vec<char> = Vec::new();
    for c in it: s.chars()
        invariant
            v@ == it.seq().take(it.index() as int),
            it.seq() == s@,
    {
        v.push(c);
    }
    v
}

/// The string whose characters are those of `v`, in order.
pub fn string_of(v: &Vec<char>) -> (s: String)
    ensures
        s@ == v@,
{
    let mut s = String::new();
    let mut i: usize = 0;
    while i < v.len()
        invariant
            i <= v.len(),
            s@ == v@.take(i as int),
        decreases v.len() - i,
    {
        s.push(v[i]);
        i += 1;
    }
    s
}

/// The number of bytes that the UTF-8 encoding of `s` takes.
pub open spec fn byte_len(s: Seq<char>) -> nat {
    vstd::utf8::encode_utf8(s).len()
}

/// The number of bytes of `s`.
pub fn byte_length(s: &str) -> (n: usize)
    ensures
        n == byte_len(s@),
{
    s.as_bytes().len()
}

/// Characters with the Unicode property White_Space.
pub open spec fn is_whitespace(c: char) -> bool {
    let n = c as u32;
    ||| 0x09 <= n <= 0x0D
    ||| n == 0x20
    ||| n == 0x85
    ||| n == 0xA0
    ||| n == 0x1680
    ||| 0x2000 <= n <= 0x200A
    ||| n == 0x2028
    ||| n == 0x2029
    ||| n == 0x202F
    ||| n == 0x205F
    ||| n == 0x3000
}

/// Characters of the Unicode general category Cc (control codes).
pub open spec fn is_control(c: char) -> bool {
    let n = c as u32;
    n <= 0x1F || 0x7F <= n <= 0x9F
}

/// Whether `c` has the property White_Space.
pub fn char_is_whitespace(c: char) -> (r: bool)
    ensures
        r == is_whitespace(c),
{
    let n: u32 = c as u32;
    (0x09 <= n && n <= 0x0D) || n == 0x20 || n == 0x85 || n == 0xA0 || n == 0x1680 || (0x2000 <= n
        && n <= 0x200A) || n == 0x2028 || n == 0x2029 || n == 0x202F || n == 0x205F || n == 0x3000
}

/// Whether `c` is a control code.
pub fn char_is_control(c: char) -> (r: bool)
    ensures
        r == is_control(c),
{
    let n: u32 = c as u32;
    n <= 0x1F || (0x7F <= n && n <= 0x9F)
}

/// A set of characters that scanning, trimming and splitting go by.
#[derive(Clone, Copy, Debug)]
pub enum CharClass {
    /// The characters with the property White_Space.
    Whitespace,
    /// One character.
    Is(char),
    /// Two characters.
    Either(char, char),
}

impl CharClass {
    /// Whether `c` is in the class.
    pub open spec fn has(self, c: char) -> bool {
        match self {
            CharClass::Whitespace => is_whitespace(c),
            CharClass::Is(a) => c == a,
            CharClass::Either(a, b) => c == a || c == b,
        }
    }

    /// Whether `c` is in the class.
    pub fn contains(&self, c: char) -> (r: bool)
        ensures
            r == self.has(c),
    {
        match self {
            CharClass::Whitespace => char_is_whitespace(c),
            CharClass::Is(a) => c == *a,
            CharClass::Either(a, b) => c == *a || c == *b,
        }
    }
}

/// The first index at or after `from` whose character is in `class`, or the
/// length of `s` where there is none.
pub open spec fn find_from(s: Seq<char>, class: CharClass, from: int) -> int
    decreases s.len() - from,
{
    if from < 0 || from >= s.len() {
        s.len() as int
    } else if class.has(s[from]) {
        from
    } else {
        find_from(s, class, from + 1)
    }
}

/// The first index at or after `from` whose character is not in `class`, or
/// the length of `s` where there is none.
pub open spec fn skip_from(s: Seq<char>, class: CharClass, from: int) -> int
    decreases s.len() - from,
{
    if from < 0 || from >= s.len() {
        s.len() as int
    } else if !class.has(s[from]) {
        from
    } else {
        skip_from(s, class, from + 1)
    }
}

/// The end of the longest prefix of `s.take(to)` that does not end in a
/// character of `class`.
pub open spec fn skip_back(s: Seq<char>, class: CharClass, to: int) -> int
    decreases to,
{
    if to <= 0 || to > s.len() {
        0
    } else if !class.has(s[to - 1]) {
        to
    } else {
        skip_back(s, class, to - 1)
    }
}

/// What [`find_from`] returns: an index from `from` on whose character is in
/// `class` and before which, from `from` on, none is; or the length.
pub proof fn lemma_find_from_bounds(s: Seq<char>, class: CharClass, from: int)
    requires
        0 <= from <= s.len(),
    ensures
        from <= find_from(s, class, from) <= s.len(),
        find_from(s, class, from) < s.len() ==> class.has(s[find_from(s, class, from)]),
        forall|j: int| from <= j < find_from(s, class, from) ==> !class.has(#[trigger] s[j]),
    decreases s.len() - from,
{
    if from < s.len() && !class.has(s[from]) {
        lemma_find_from_bounds(s, class, from + 1);
    }
}

/// What [`skip_from`] returns: an index from `from` on whose character is
/// not in `class` and before which, from `from` on, all are; or the length.
pub proof fn lemma_skip_from_bounds(s: Seq<char>, class: CharClass, from: int)
    requires
        0 <= from <= s.len(),
    ensures
        from <= skip_from(s, class, from) <= s.len(),
        skip_from(s, class, from) < s.len() ==> !class.has(s[skip_from(s, class, from)]),
        forall|j: int| from <= j < skip_from(s, class, from) ==> class.has(#[trigger] s[j]),
    decreases s.len() - from,
{
    if from < s.len() && class.has(s[from]) {
        lemma_skip_from_bounds(s, class, from + 1);
    }
}

/// What [`skip_back`] returns: an index up to `to` before which stands a
/// character that is not in `class`, and from which on, up to `to`, all
/// are; or 0.
pub proof fn lemma_skip_back_bounds(s: Seq<char>, class: CharClass, to: int)
    requires
        0 <= to <= s.len(),
    ensures
        0 <= skip_back(s, class, to) <= to,
        skip_back(s, class, to) > 0 ==> !class.has(s[skip_back(s, class, to) - 1]),
        forall|j: int| skip_back(s, class, to) <= j < to ==> class.has(#[trigger] s[j]),
    decreases to,
{
    if to > 0 && class.has(s[to - 1]) {
        lemma_skip_back_bounds(s, class, to - 1);
    }
}

/// `s` without its longest prefix of characters of `class`.
pub open spec fn trim_start_matches(s: Seq<char>, class: CharClass) -> Seq<char> {
    s.skip(skip_from(s, class, 0))
}

/// `s` without its longest suffix of characters of `class`.
pub open spec fn trim_end_matches(s: Seq<char>, class: CharClass) -> Seq<char> {
    s.take(skip_back(s, class, s.len() as int))
}

/// `s` without the characters of `class` at either end.
pub open spec fn trim_matches(s: Seq<char>, class: CharClass) -> Seq<char> {
    trim_end_matches(trim_start_matches(s, class), class)
}

/// `s` without leading whitespace.
pub open spec fn trim_start(s: Seq<char>) -> Seq<char> {
    trim_start_matches(s, CharClass::Whitespace)
}

/// `s` without leading and trailing whitespace.
pub open spec fn trim(s: Seq<char>) -> Seq<char> {
    trim_matches(s, CharClass::Whitespace)
}

/// Index of the first character of `class` at or after `from`.
pub fn find_class(s: &Vec<char>, class: CharClass, from: usize) -> (r: usize)
    requires
        from <= s.len(),
    ensures
        r == find_from(s@, class, from as int),
        from <= r <= s.len(),
{
    let mut i: usize = from;
    while i < s.len() && !class.contains(s[i])
        invariant
            from <= i <= s.len(),
            find_from(s@, class, from as int) == find_from(s@, class, i as int),
        decreases s.len() - i,
    {
        i += 1;
    }
    i
}

/// Index of the first character not of `class` at or after `from`.
pub fn skip_class(s: &Vec<char>, class: CharClass, from: usize) -> (r: usize)
    requires
        from <= s.len(),
    ensures
        r == skip_from(s@, class, from as int),
        from <= r <= s.len(),
{
    let mut i: usize = from;
    while i < s.len() && class.contains(s[i])
        invariant
            from <= i <= s.len(),
            skip_from(s@, class, from as int) == skip_from(s@, class, i as int),
        decreases s.len() - i,
    {
        i += 1;
    }
    i
}

/// End of the text that is left when the characters of `class` are taken
/// from the end of `s.take(to)`.
pub fn skip_class_back(s: &Vec<char>, class: CharClass, to: usize) -> (r: usize)
    requires
        to <= s.len(),
    ensures
        r == skip_back(s@, class, to as int),
        r <= to,
{
    let mut i: usize = to;
    while i > 0 && class.contains(s[i - 1])
        invariant
            i <= to <= s.len(),
            skip_back(s@, class, to as int) == skip_back(s@, class, i as int),
        decreases i,
    {
        i -= 1;
    }
    i
}

/// The characters of `s` from `from` up to `to`.
pub fn slice_of(s: &Vec<char>, from: usize, to: usize) -> (r: Vec<char>)
    requires
        from <= to <= s.len(),
    ensures
        r@ == s@.subrange(from as int, to as int),
{
    let mut r: Vec<char> = Vec::new();
    let mut i: usize = from;
    while i < to
        invariant
            from <= i <= to <= s.len(),
            r@ == s@.subrange(from as int, i as int),
        decreases to - i,
    {
        r.push(s[i]);
        i += 1;
    }
    r
}

/// `s` without its longest prefix of characters of `class`.
pub fn trim_start_matches_of(s: &Vec<char>, class: CharClass) -> (r: Vec<char>)
    ensures
        r@ == trim_start_matches(s@, class),
{
    let a: usize = skip_class(s, class, 0);
    slice_of(s, a, s.len())
}

/// `s` without its longest suffix of characters of `class`.
pub fn trim_end_matches_of(s: &Vec<char>, class: CharClass) -> (r: Vec<char>)
    ensures
        r@ == trim_end_matches(s@, class),
{
    let b: usize = skip_class_back(s, class, s.len());
    slice_of(s, 0, b)
}

/// `s` without the characters of `class` at either end.
pub fn trim_matches_of(s: &Vec<char>, class: CharClass) -> (r: Vec<char>)
    ensures
        r@ == trim_matches(s@, class),
{
    let t = trim_start_matches_of(s, class);
    trim_end_matches_of(&t, class)
}

/// `s` without leading whitespace.
pub fn trim_start_of(s: &Vec<char>) -> (r: Vec<char>)
    ensures
        r@ == trim_start(s@),
{
    trim_start_matches_of(s, CharClass::Whitespace)
}

/// `s` without leading and trailing whitespace.
pub fn trim_of(s: &Vec<char>) -> (r: Vec<char>)
    ensures
        r@ == trim(s@),
{
    trim_matches_of(s, CharClass::Whitespace)
}

/// Whether `p` stands in `s` at index `i`.
pub open spec fn occurs_at(s: Seq<char>, p: Seq<char>, i: int) -> bool {
    0 <= i && i + p.len() <= s.len() && s.subrange(i, i + p.len()) == p
}

/// Whether `p` stands somewhere in `s`.
pub open spec fn contains_text(s: Seq<char>, p: Seq<char>) -> bool {
    exists|i: int| occurs_at(s, p, i)
}

/// Whether `p` stands in `s` at index `i`.
pub fn occurs_at_index(s: &Vec<char>, p: &Vec<char>, i: usize) -> (r: bool)
    ensures
        r == occurs_at(s@, p@, i as int),
{
    if p.len() > s.len() || i > s.len() - p.len() {
        return false;
    }
    let mut k: usize = 0;
    while k < p.len()
        invariant
            k <= p.len(),
            i + p.len() <= s.len(),
            s@.subrange(i as int, i + k) == p@.take(k as int),
        decreases p.len() - k,
    {
        if s[i + k] != p[k] {
            proof {
                let w = s@.subrange(i as int, i + p.len());
                assert(w[k as int] == s@[i + k]);
            }
            return false;
        }
        proof {
            assert(s@.subrange(i as int, i + k + 1) == s@.subrange(i as int, i + k).push(
                s@[i + k],
            ));
            assert(p@.take(k + 1) == p@.take(k as int).push(p@[k as int]));
        }
        k += 1;
    }
    proof {
        assert(p@.take(p.len() as int) == p@);
    }
    true
}

/// Whether `s` begins with `p`.
pub fn starts_with(s: &Vec<char>, p: &Vec<char>) -> (r: bool)
    ensures
        r == p@.is_prefix_of(s@),
{
    let r = occurs_at_index(s, p, 0);
    proof {
        if p@.len() <= s@.len() {
            assert(s@.subrange(0, p@.len() as int) == p@ <==> p@.is_prefix_of(s@)) by {
                if p@.is_prefix_of(s@) {
                    assert(s@.subrange(0, p@.len() as int) =~= p@);
                }
            }
        }
    }
    r
}

/// Whether `p` stands somewhere in `s`.
pub fn contains(s: &Vec<char>, p: &Vec<char>) -> (r: bool)
    ensures
        r == contains_text(s@, p@),
{
    let mut i: usize = 0;
    while i < s.len()
        invariant
            i <= s.len(),
            forall|j: int| 0 <= j < i ==> !occurs_at(s@, p@, j),
        decreases s.len() - i,
    {
        if occurs_at_index(s, p, i) {
            return true;
        }
        i += 1;
    }
    occurs_at_index(s, p, i)
}

/// Whether the character `c` stands somewhere in `s`.
pub fn contains_char(s: &Vec<char>, c: char) -> (r: bool)
    ensures
        r == s@.contains(c),
{
    let i: usize = find_class(s, CharClass::Is(c), 0);
    proof {
        lemma_find_from_bounds(s@, CharClass::Is(c), 0);
        if i < s.len() {
            assert(s@[i as int] == c);
        }
    }
    i < s.len()
}

/// `a` followed by `b`.
pub fn concat(a: &Vec<char>, b: &Vec<char>) -> (r: Vec<char>)
    ensures
        r@ == a@ + b@,
{
    let mut r: Vec<char> = Vec::new();
    let mut i: usize = 0;
    while i < a.len()
        invariant
            i <= a.len(),
            r@ == a@.take(i as int),
        decreases a.len() - i,
    {
        r.push(a[i]);
        i += 1;
    }
    let mut k: usize = 0;
    while k < b.len()
        invariant
            k <= b.len(),
            r@ == a@ + b@.take(k as int),
        decreases b.len() - k,
    {
        r.push(b[k]);
        k += 1;
    }
    r
}

/// The pieces of `s` from index `from` on, cut at each character of `class`.
/// Between two cuts, before the first and after the last there is one piece,
/// which may be empty.
pub open spec fn split_from(s: Seq<char>, class: CharClass, from: int) -> Seq<Seq<char>>
    decreases s.len() - from,
    via split_from_decreases
{
    if from < 0 || from > s.len() {
        Seq::empty()
    } else {
        let cut = find_from(s, class, from);
        if cut >= s.len() {
            seq![s.subrange(from, s.len() as int)]
        } else {
            seq![s.subrange(from, cut)] + split_from(s, class, cut + 1)
        }
    }
}

#[via_fn]
proof fn split_from_decreases(s: Seq<char>, class: CharClass, from: int) {
    if 0 <= from <= s.len() {
        lemma_find_from_bounds(s, class, from);
    }
}

/// The pieces of `s`, cut at each character of `class`.
pub open spec fn split(s: Seq<char>, class: CharClass) -> Seq<Seq<char>> {
    split_from(s, class, 0)
}

/// The texts that a vector of character vectors holds.
pub open spec fn texts(v: Seq<Vec<char>>) -> Seq<Seq<char>> {
    v.map_values(|p: Vec<char>| p@)
}

/// The pieces of `s`, cut at each character of `class`.
pub fn split_of(s: &Vec<char>, class: CharClass) -> (r: Vec<Vec<char>>)
    ensures
        texts(r@) == split(s@, class),
{
    let mut r: Vec<Vec<char>> = Vec::new();
    let mut from: usize = 0;
    loop
        invariant_except_break
            from <= s.len(),
            split(s@, class) == texts(r@) + split_from(s@, class, from as int),
        ensures
            texts(r@) == split(s@, class),
        decreases s.len() - from,
    {
        let cut: usize = find_class(s, class, from);
        let piece = slice_of(s, from, cut);
        proof {
            assert(texts(r@.push(piece)) == texts(r@).push(piece@));
            assert(texts(r@) + (seq![piece@] + split_from(s@, class, cut + 1)) == texts(r@).push(
                piece@,
            ) + split_from(s@, class, cut + 1));
        }
        r.push(piece);
        if cut >= s.len() {
            break;
        }
        from = cut + 1;
    }
    r
}

/// The texts of `parts` in order, with `sep` between each two.
pub open spec fn join(parts: Seq<Seq<char>>, sep: Seq<char>) -> Seq<char>
    decreases parts.len(),
{
    if parts.len() == 0 {
        Seq::empty()
    } else if parts.len() == 1 {
        parts[0]
    } else {
        join(parts.drop_last(), sep) + sep + parts.last()
    }
}

/// The texts of `parts` in order, with `sep` between each two.
pub fn join_of(parts: &Vec<Vec<char>>, sep: &Vec<char>) -> (r: Vec<char>)
    ensures
        r@ == join(texts(parts@), sep@),
{
    let mut r: Vec<char> = Vec::new();
    let mut i: usize = 0;
    while i < parts.len()
        invariant
            i <= parts.len(),
            r@ == join(texts(parts@).take(i as int), sep@),
        decreases parts.len() - i,
    {
        proof {
            let t = texts(parts@);
            assert(t.take(i + 1).drop_last() == t.take(i as int));
            assert(t.take(i + 1).last() == parts@[i as int]@);
        }
        if i > 0 {
            r = concat(&r, sep);
        }
        r = concat(&r, &parts[i]);
        i += 1;
    }
    proof {
        assert(texts(parts@).take(parts.len() as int) == texts(parts@));
    }
    r
}

/// The pieces trimmed of whitespace, without those that are then empty.
pub open spec fn trimmed_entries(pieces: Seq<Seq<char>>) -> Seq<Seq<char>> {
    pieces.map_values(|p: Seq<char>| trim(p)).filter(|p: Seq<char>| p.len() > 0)
}

/// The entries of a list written with commas or semicolons between them:
/// each trimmed of whitespace, the empty ones left out.
pub open spec fn list_entries(s: Seq<char>) -> Seq<Seq<char>> {
    trimmed_entries(split(s, CharClass::Either(',', ';')))
}

/// The entries of pieces with one piece more: the last piece is an entry
/// unless nothing is left of it, the others as before.
pub proof fn lemma_trimmed_entries_push(pieces: Seq<Seq<char>>, piece: Seq<char>)
    ensures
        trimmed_entries(pieces.push(piece)) == if trim(piece).len() > 0 {
            trimmed_entries(pieces).push(trim(piece))
        } else {
            trimmed_entries(pieces)
        },
{
    let f = |p: Seq<char>| trim(p);
    let nonempty = |p: Seq<char>| p.len() > 0;
    pieces.lemma_push_map_commute(f, piece);
    pieces.map_values(f).lemma_filter_push(f(piece), nonempty);
}

/// The entries of a list written with commas or semicolons between them.
pub fn list_entries_of(s: &Vec<char>) -> (r: Vec<Vec<char>>)
    ensures
        texts(r@) == list_entries(s@),
{
    let pieces = split_of(s, CharClass::Either(',', ';'));
    let mut r: Vec<Vec<char>> = Vec::new();
    let mut i: usize = 0;
    proof {
        assert(texts(pieces@).take(0) == Seq::<Seq<char>>::empty());
        reveal(Seq::filter);
        assert(trimmed_entries(Seq::<Seq<char>>::empty()) == Seq::<Seq<char>>::empty());
    }
    while i < pieces.len()
        invariant
            i <= pieces.len(),
            texts(r@) == trimmed_entries(texts(pieces@).take(i as int)),
        decreases pieces.len() - i,
    {
        let t = trim_of(&pieces[i]);
        proof {
            let done = texts(pieces@).take(i as int);
            assert(texts(pieces@).take(i + 1) == done.push(pieces@[i as int]@));
            lemma_trimmed_entries_push(done, pieces@[i as int]@);
            assert(texts(r@.push(t)) == texts(r@).push(t@));
        }
        if t.len() > 0 {
            r.push(t);
        }
        i += 1;
    }
    proof {
        assert(texts(pieces@).take(pieces.len() as int) == texts(pieces@));
    }
    r
}

/// Whether `a` and `b` hold the same text.
pub fn same_text(a: &Vec<char>, b: &Vec<char>) -> (r: bool)
    ensures
        r == (a@ == b@),
{
    if a.len() != b.len() {
        return false;
    }
    let mut i: usize = 0;
    while i < a.len()
        invariant
            i <= a.len(),
            a.len() == b.len(),
            forall|j: int| 0 <= j < i ==> a@[j] == b@[j],
        decreases a.len() - i,
    {
        if a[i] != b[i] {
            return false;
        }
        i += 1;
    }
    proof {
        assert(a@ =~= b@);
    }
    true
}

/// Whether `a` and `b` are the same text.
pub fn str_equal(a: &str, b: &str) -> (r: bool)
    ensures
        r == (a@ == b@),
{
    same_text(&chars_of(a), &chars_of(b))
}

/// Whether `s` ends with `p`.
pub fn ends_with(s: &Vec<char>, p: &Vec<char>) -> (r: bool)
    ensures
        r == p@.is_suffix_of(s@),
{
    if p.len() > s.len() {
        return false;
    }
    let at: usize = s.len() - p.len();
    let r = occurs_at_index(s, p, at);
    proof {
        assert(s@.subrange(at as int, at + p@.len()) =~= s@.skip(at as int));
        assert(s@.skip(at as int) == p@ <==> p@.is_suffix_of(s@)) by {
            if p@.is_suffix_of(s@) {
                assert(s@.skip(at as int) =~= p@);
            }
        }
    }
    r
}

/// The texts that are not empty.
pub open spec fn nonempty() -> spec_fn(Seq<char>) -> bool {
    |p: Seq<char>| p.len() > 0
}

/// The words of a text: what stands between whitespace.
pub open spec fn words(s: Seq<char>) -> Seq<Seq<char>> {
    split(s, CharClass::Whitespace).filter(nonempty())
}

/// Whether `p` is a part of `s`: the characters of `s` from one index up to
/// another.
pub open spec fn is_part_of(p: Seq<char>, s: Seq<char>) -> bool {
    exists|a: int, b: int| 0 <= a <= b <= s.len() && p == #[trigger] s.subrange(a, b)
}

/// Every piece of a text is a part of it.
pub proof fn lemma_pieces_are_parts(s: Seq<char>, class: CharClass, from: int)
    requires
        0 <= from <= s.len(),
    ensures
        forall|k: int|
            0 <= k < split_from(s, class, from).len() ==> is_part_of(
                #[trigger] split_from(s, class, from)[k],
                s,
            ),
    decreases s.len() - from,
{
    lemma_find_from_bounds(s, class, from);
    let cut = find_from(s, class, from);
    let pieces = split_from(s, class, from);
    if cut >= s.len() {
        assert(pieces[0] == s.subrange(from, s.len() as int));
    } else {
        lemma_pieces_are_parts(s, class, cut + 1);
        let rest = split_from(s, class, cut + 1);
        assert forall|k: int| 0 <= k < pieces.len() implies is_part_of(#[trigger] pieces[k], s) by {
            if k == 0 {
                assert(pieces[0] == s.subrange(from, cut));
            } else {
                assert(pieces[k] == rest[k - 1]);
            }
        }
    }
}

/// Every word of a text is a part of it, and is not empty.
pub proof fn lemma_words_are_parts(s: Seq<char>)
    ensures
        forall|k: int|
            0 <= k < words(s).len() ==> is_part_of(#[trigger] words(s)[k], s) && words(s)[k].len()
                > 0,
{
    let pieces = split(s, CharClass::Whitespace);
    lemma_pieces_are_parts(s, CharClass::Whitespace, 0);
    assert forall|k: int| 0 <= k < words(s).len() implies is_part_of(#[trigger] words(s)[k], s)
        && words(s)[k].len() > 0 by {
        let w = words(s)[k];
        pieces.lemma_filter_pred(nonempty(), k);
        assert(pieces.filter(nonempty()).contains(w));
        pieces.lemma_filter_contains_rev(nonempty(), w);
        let i = choose|i: int| 0 <= i < pieces.len() && pieces[i] == w;
        assert(is_part_of(pieces[i], s));
        assert(nonempty()(w));
    }
}

/// What holds a text holds each part of it.
pub proof fn lemma_part_is_contained(hay: Seq<char>, s: Seq<char>, p: Seq<char>)
    requires
        contains_text(hay, s),
        is_part_of(p, s),
    ensures
        contains_text(hay, p),
{
    let i = choose|i: int| occurs_at(hay, s, i);
    let (a, b) = choose|a: int, b: int| 0 <= a <= b <= s.len() && p == #[trigger] s.subrange(a, b);
    assert(hay.subrange(i + a, i + a + p.len()) =~= p) by {
        assert(hay.subrange(i, i + s.len()) == s);
        assert forall|k: int| 0 <= k < p.len() implies hay[i + a + k] == p[k] by {
            assert(hay.subrange(i, i + s.len())[a + k] == s[a + k]);
        }
    }
    assert(occurs_at(hay, p, i + a));
}

/// The words of a text.
pub fn words_of(s: &Vec<char>) -> (r: Vec<Vec<char>>)
    ensures
        texts(r@) == words(s@),
{
    let pieces = split_of(s, CharClass::Whitespace);
    let mut r: Vec<Vec<char>> = Vec::new();
    let mut i: usize = 0;
    proof {
        assert(texts(pieces@).take(0) =~= Seq::<Seq<char>>::empty());
        reveal(Seq::filter);
        assert(texts(r@) =~= texts(pieces@).take(0).filter(nonempty()));
    }
    while i < pieces.len()
        invariant
            i <= pieces.len(),
            texts(r@) == texts(pieces@).take(i as int).filter(nonempty()),
        decreases pieces.len() - i,
    {
        proof {
            let done = texts(pieces@).take(i as int);
            assert(texts(pieces@).take(i + 1) =~= done.push(pieces@[i as int]@));
            done.lemma_filter_push(pieces@[i as int]@, nonempty());
        }
        if pieces[i].len() > 0 {
            let w = pieces[i].clone();
            proof {
                assert(texts(r@.push(w)) =~= texts(r@).push(w@));
            }
            r.push(w);
        }
        i += 1;
    }
    proof {
        assert(texts(pieces@).take(pieces.len() as int) =~= texts(pieces@));
    }
    r
}

} // verus!
