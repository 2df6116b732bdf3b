//! Text as sequences of characters: the searching, cutting and joining that the
//! rest of the library is written with.
use vstd::prelude::*;

verus! {

/// `String::push` appends the character at the end.
pub assume_specification[ std::string::String::push ](s: &mut std::string::String, c: char)
    ensures
        final(s)@ == old(s)@.push(c),
;

/// `==` on `str` holds when both sides have the same characters.
pub assume_specification[ <str as PartialEq<str>>::eq ](a: &str, b: &str) -> (r: bool)
    ensures
        r == (a@ == b@),
;

/// The characters of `s`, in order.
pub fn chars_of(s: &str) -> (v: Vec<char>)
    ensures
        v@ == s@,
{
    let mut v: Vec<char> = Vec::new();
    for c in it: s.chars()
        invariant
            v@ == it.seq().take(it.index()),
            it.seq() == s@,
    {
        v.push(c);
    }
    v
}

/// The string made of the characters of `v`.
pub fn string_of(v: &[char]) -> (s: String)
    ensures
        s@ == v@,
{
    let mut s = String::new();
    let mut i: usize = 0;
    while i < v.len()
        invariant
            i <= v@.len(),
            s@ == v@.take(i as int),
        decreases v@.len() - i,
    {
        s.push(v[i]);
        i = i + 1;
    }
    assert(v@.take(v@.len() as int) == v@);
    s
}

/// Whether two strings have the same characters.
pub fn same(a: &str, b: &str) -> (r: bool)
    ensures
        r == (a@ == b@),
{
    a.eq(b)
}

/// A copy of the characters `from .. to`.
pub fn cut(v: &[char], from: usize, to: usize) -> (r: Vec<char>)
    requires
        from <= to <= v@.len(),
    ensures
        r@ == v@.subrange(from as int, to as int),
{
    let mut r: Vec<char> = Vec::new();
    let mut i: usize = from;
    while i < to
        invariant
            from <= i <= to <= v@.len(),
            r@ == v@.subrange(from as int, i as int),
        decreases to - i,
    {
        r.push(v[i]);
        i = i + 1;
    }
    r
}

/// Appends the characters of `more` to `out`.
pub fn extend(out: &mut Vec<char>, more: &[char])
    ensures
        final(out)@ == old(out)@ + more@,
{
    let mut i: usize = 0;
    while i < more.len()
        invariant
            i <= more@.len(),
            out@ == old(out)@ + more@.take(i as int),
        decreases more@.len() - i,
    {
        out.push(more[i]);
        i = i + 1;
    }
    assert(more@.take(more@.len() as int) == more@);
}

/// Whether two runs of characters are equal.
pub fn same_chars(a: &[char], b: &[char]) -> (r: bool)
    ensures
        r == (a@ == b@),
{
    if a.len() != b.len() {
        return false;
    }
    let mut i: usize = 0;
    while i < a.len()
        invariant
            i <= a@.len(),
            a@.len() == b@.len(),
            a@.take(i as int) == b@.take(i as int),
        decreases a@.len() - i,
    {
        if a[i] != b[i] {
            assert(a@[i as int] != b@[i as int]);
            return false;
        }
        i = i + 1;
    }
    assert(a@.take(a@.len() as int) == a@);
    assert(b@.take(b@.len() as int) == b@);
    true
}

// ---------------------------------------------------------------------------
// Finding
// ---------------------------------------------------------------------------

/// `needle` stands in `s` at position `i`.
pub open spec fn occurs_at(s: Seq<char>, needle: Seq<char>, i: int) -> bool {
    0 <= i && i + needle.len() <= s.len() && s.subrange(i, i + needle.len()) == needle
}

/// The first position at or after `from` where `needle` stands in `s`.
pub open spec fn find_from(s: Seq<char>, needle: Seq<char>, from: int) -> Option<int>
    decreases s.len() - from + 1,
{
    if from < 0 || from + needle.len() > s.len() {
        None
    } else if occurs_at(s, needle, from) {
        Some(from)
    } else {
        find_from(s, needle, from + 1)
    }
}

/// `needle` stands somewhere in `s`.
pub open spec fn contains(s: Seq<char>, needle: Seq<char>) -> bool {
    find_from(s, needle, 0) is Some
}

/// What `find_from` gives is an occurrence, and none stands between `from` and it.
pub proof fn lemma_find_from(s: Seq<char>, needle: Seq<char>, from: int)
    requires
        0 <= from,
    ensures
        match find_from(s, needle, from) {
            Some(j) => from <= j && occurs_at(s, needle, j) && forall|k: int|
                from <= k < j ==> !occurs_at(s, needle, k),
            None => forall|k: int| from <= k ==> !occurs_at(s, needle, k),
        },
    decreases s.len() - from + 1,
{
    if from + needle.len() > s.len() {
    } else if occurs_at(s, needle, from) {
    } else {
        lemma_find_from(s, needle, from + 1);
    }
}

fn stands_at(s: &[char], needle: &[char], at: usize) -> (r: bool)
    requires
        at + needle@.len() <= s@.len(),
    ensures
        r == occurs_at(s@, needle@, at as int),
{
    let n = s.len();
    let mut i: usize = 0;
    while i < needle.len()
        invariant
            i <= needle@.len(),
            n == s@.len(),
            at + needle@.len() <= s@.len(),
            forall|k: int| 0 <= k < i ==> s@[at + k] == needle@[k],
        decreases needle@.len() - i,
    {
        if s[at + i] != needle[i] {
            assert(s@.subrange(at as int, at + needle@.len())[i as int] != needle@[i as int]);
            return false;
        }
        i = i + 1;
    }
    assert(s@.subrange(at as int, at + needle@.len()) == needle@);
    true
}

/// The first position at or after `from` where `needle` stands.
pub fn find_chars(s: &[char], needle: &[char], from: usize) -> (r: Option<usize>)
    ensures
        match r {
            Some(j) => find_from(s@, needle@, from as int) == Some(j as int),
            None => find_from(s@, needle@, from as int) is None,
        },
{
    let mut i: usize = from;
    while i <= s.len() && needle.len() <= s.len() - i
        invariant
            from <= i,
            find_from(s@, needle@, from as int) == find_from(s@, needle@, i as int),
            i <= s@.len() + 1 || i == from,
        decreases s@.len() + 1 - i,
    {
        if stands_at(s, needle, i) {
            return Some(i);
        }
        if i == s.len() {
            assert(find_from(s@, needle@, i + 1) is None);
            return None;
        }
        i = i + 1;
    }
    None
}

/// Whether `needle` stands somewhere in `s`.
pub fn has(s: &str, needle: &str) -> (r: bool)
    ensures
        r == contains(s@, needle@),
{
    let cs = chars_of(s);
    let ns = chars_of(needle);
    find_chars(&cs, &ns, 0).is_some()
}

/// Whether `s` starts with `prefix`.
pub fn starts_with(s: &[char], prefix: &[char]) -> (r: bool)
    ensures
        r == prefix@.is_prefix_of(s@),
{
    prefix.len() <= s.len() && stands_at(s, prefix, 0)
}

/// The first position of `c` in `s`.
pub open spec fn index_of_char(s: Seq<char>, c: char) -> Option<int>
    decreases s.len(),
{
    if s.len() == 0 {
        None
    } else {
        match index_of_char(s.drop_last(), c) {
            Some(i) => Some(i),
            None => if s.last() == c {
                Some(s.len() - 1)
            } else {
                None
            },
        }
    }
}

/// `index_of_char` gives the first position that holds `c`, and `None` only where none does.
pub proof fn lemma_index_of_char(s: Seq<char>, c: char)
    ensures
        match index_of_char(s, c) {
            Some(i) => 0 <= i < s.len() && s[i] == c && forall|k: int| 0 <= k < i ==> s[k] != c,
            None => !s.contains(c),
        },
    decreases s.len(),
{
    if s.len() > 0 {
        let t = s.drop_last();
        lemma_index_of_char(t, c);
        assert(forall|k: int| 0 <= k < t.len() ==> t[k] == s[k]);
        if index_of_char(t, c) is None {
            assert forall|k: int| 0 <= k < t.len() implies s[k] != c by {
                assert(!t.contains(c));
                assert(t[k] == s[k]);
            }
        }
    }
}

/// The first position of `c` in `s`.
pub fn position(s: &[char], c: char) -> (r: Option<usize>)
    ensures
        match r {
            Some(i) => index_of_char(s@, c) == Some(i as int) && i < s@.len(),
            None => index_of_char(s@, c) is None,
        },
{
    let mut i: usize = 0;
    while i < s.len()
        invariant
            i <= s@.len(),
            forall|k: int| 0 <= k < i ==> s@[k] != c,
        decreases s@.len() - i,
    {
        if s[i] == c {
            proof {
                lemma_index_of_char(s@, c);
            }
            return Some(i);
        }
        i = i + 1;
    }
    proof {
        lemma_index_of_char(s@, c);
    }
    None
}

/// The last position of `c` in `s`.
pub open spec fn last_index_of(s: Seq<char>, c: char) -> Option<int>
    decreases s.len(),
{
    if s.len() == 0 {
        None
    } else if s.last() == c {
        Some(s.len() - 1)
    } else {
        last_index_of(s.drop_last(), c)
    }
}

/// The last position of `c` in `s`.
pub fn last_position(s: &[char], c: char) -> (r: Option<usize>)
    ensures
        match r {
            Some(i) => last_index_of(s@, c) == Some(i as int) && i < s@.len(),
            None => last_index_of(s@, c) is None,
        },
{
    let mut i: usize = s.len();
    assert(s@.take(s@.len() as int) == s@);
    while i > 0
        invariant
            i <= s@.len(),
            last_index_of(s@, c) == last_index_of(s@.take(i as int), c),
        decreases i,
    {
        assert(s@.take(i as int).drop_last() == s@.take(i - 1));
        if s[i - 1] == c {
            return Some(i - 1);
        }
        i = i - 1;
    }
    None
}

// ---------------------------------------------------------------------------
// White space
// ---------------------------------------------------------------------------

/// The characters with the Unicode property `White_Space`.
pub open spec fn is_white(c: char) -> bool {
    ||| 0x9 <= c as int <= 0xd
    ||| c as int == 0x20
    ||| c as int == 0x85
    ||| c as int == 0xa0
    ||| c as int == 0x1680
    ||| 0x2000 <= c as int <= 0x200a
    ||| c as int == 0x2028
    ||| c as int == 0x2029
    ||| c as int == 0x202f
    ||| c as int == 0x205f
    ||| c as int == 0x3000
}

/// Whether `c` has the Unicode property `White_Space`.
pub fn white(c: char) -> (r: bool)
    ensures
        r == is_white(c),
{
    let n: u32 = c as u32;
    (0x9 <= n && n <= 0xd) || n == 0x20 || n == 0x85 || n == 0xa0 || n == 0x1680 || (0x2000 <= n
        && n <= 0x200a) || n == 0x2028 || n == 0x2029 || n == 0x202f || n == 0x205f || n == 0x3000
}

/// `s` without the white space at its end.
pub open spec fn trim_end(s: Seq<char>) -> Seq<char>
    decreases s.len(),
{
    if s.len() > 0 && is_white(s.last()) {
        trim_end(s.drop_last())
    } else {
        s
    }
}

/// `s` without the white space at its start.
pub open spec fn trim_start(s: Seq<char>) -> Seq<char>
    decreases s.len(),
{
    if s.len() > 0 && is_white(s[0]) {
        trim_start(s.drop_first())
    } else {
        s
    }
}

/// `s` without the white space at both ends.
pub open spec fn trim(s: Seq<char>) -> Seq<char> {
    trim_start(trim_end(s))
}

/// The end of `s` once the white space there is left out.
pub fn end_of_text(s: &[char]) -> (n: usize)
    ensures
        n <= s@.len(),
        trim_end(s@) == s@.take(n as int),
{
    let mut n: usize = s.len();
    assert(s@.take(s@.len() as int) == s@);
    while n > 0 && white(s[n - 1])
        invariant
            n <= s@.len(),
            trim_end(s@) == trim_end(s@.take(n as int)),
        decreases n,
    {
        assert(s@.take(n as int).drop_last() == s@.take(n - 1));
        n = n - 1;
    }
    n
}

/// The start of `s` once the white space there is left out.
pub fn start_of_text(s: &[char]) -> (n: usize)
    ensures
        n <= s@.len(),
        trim_start(s@) == s@.skip(n as int),
{
    let mut n: usize = 0;
    assert(s@.skip(0) == s@);
    while n < s.len() && white(s[n])
        invariant
            n <= s@.len(),
            trim_start(s@) == trim_start(s@.skip(n as int)),
        decreases s@.len() - n,
    {
        assert(s@.skip(n as int).drop_first() == s@.skip(n + 1));
        n = n + 1;
    }
    n
}

/// A copy of `s` without the white space at both ends.
pub fn trimmed(s: &[char]) -> (r: Vec<char>)
    ensures
        r@ == trim(s@),
{
    let n = end_of_text(s);
    let head = cut(s, 0, n);
    assert(head@ == trim_end(s@));
    let k = start_of_text(&head);
    let r = cut(&head, k, head.len());
    assert(r@ == head@.skip(k as int));
    r
}

/// A copy of `s` without the white space at its end.
pub fn trimmed_end(s: &[char]) -> (r: Vec<char>)
    ensures
        r@ == trim_end(s@),
{
    let n = end_of_text(s);
    let r = cut(s, 0, n);
    assert(r@ == s@.take(n as int));
    r
}

/// A copy of `s` without the white space at its start.
pub fn trimmed_start(s: &[char]) -> (r: Vec<char>)
    ensures
        r@ == trim_start(s@),
{
    let n = start_of_text(s);
    let r = cut(s, n, s.len());
    assert(r@ == s@.skip(n as int));
    r
}

/// `s` without the white space at both ends.
pub fn trim_str(s: &str) -> (r: String)
    ensures
        r@ == trim(s@),
{
    let cs = chars_of(s);
    string_of(&trimmed(&cs))
}

/// Nothing is left after trimming.
pub open spec fn is_blank(s: Seq<char>) -> bool {
    trim(s).len() == 0
}

/// Whether nothing is left of `s` after trimming.
pub fn blank(s: &str) -> (r: bool)
    ensures
        r == is_blank(s@),
{
    let cs = chars_of(s);
    trimmed(&cs).len() == 0
}

// ---------------------------------------------------------------------------
// Splitting and joining
// ---------------------------------------------------------------------------

/// The pieces of `s` between the occurrences of `c`: each `c` opens a new piece, every
/// other character extends the last one.
pub open spec fn split_on(s: Seq<char>, c: char) -> Seq<Seq<char>>
    decreases s.len(),
{
    if s.len() == 0 {
        seq![Seq::<char>::empty()]
    } else {
        let pieces = split_on(s.drop_last(), c);
        if s.last() == c {
            pieces.push(Seq::empty())
        } else {
            pieces.drop_last().push(pieces.last().push(s.last()))
        }
    }
}

/// The pieces put together again, with `sep` between two of them.
pub open spec fn join(pieces: Seq<Seq<char>>, sep: Seq<char>) -> Seq<char>
    decreases pieces.len(),
{
    if pieces.len() == 0 {
        Seq::empty()
    } else if pieces.len() == 1 {
        pieces[0]
    } else {
        join(pieces.drop_last(), sep) + sep + pieces.last()
    }
}

/// Splitting gives at least one piece.
pub proof fn lemma_split_nonempty(s: Seq<char>, c: char)
    ensures
        split_on(s, c).len() >= 1,
    decreases s.len(),
{
    if s.len() > 0 {
        lemma_split_nonempty(s.drop_last(), c);
    }
}

/// Joining what was split gives the text back.
pub proof fn law_join_of_split(s: Seq<char>, c: char)
    ensures
        join(split_on(s, c), seq![c]) == s,
    decreases s.len(),
{
    if s.len() > 0 {
        let head = s.drop_last();
        law_join_of_split(head, c);
        lemma_split_nonempty(head, c);
        let p = split_on(head, c);
        if s.last() == c {
            let q = p.push(Seq::<char>::empty());
            assert(q.drop_last() == p);
            assert(join(q, seq![c]) == head + seq![c] + Seq::<char>::empty());
            assert(head + seq![c] + Seq::<char>::empty() == s);
        } else {
            let q = p.drop_last().push(p.last().push(s.last()));
            assert(q.drop_last() == p.drop_last());
            if p.len() == 1 {
                assert(join(q, seq![c]) == p[0].push(s.last()));
                assert(head.push(s.last()) == s);
            } else {
                assert(q.last() == p.last().push(s.last()));
                assert(join(p.drop_last(), seq![c]) + seq![c] + p.last() == head);
                assert(join(q, seq![c]) == (join(p.drop_last(), seq![c]) + seq![c] + p.last()).push(
                    s.last(),
                ));
                assert(head.push(s.last()) == s);
            }
        }
    }
}

/// No piece holds the separator.
pub proof fn lemma_split_pieces(s: Seq<char>, c: char)
    ensures
        forall|i: int| 0 <= i < split_on(s, c).len() ==> !(#[trigger] split_on(s, c)[i]).contains(c),
    decreases s.len(),
{
    if s.len() > 0 {
        let head = s.drop_last();
        lemma_split_pieces(head, c);
        lemma_split_nonempty(head, c);
        let p = split_on(head, c);
        let q = split_on(s, c);
        assert forall|i: int| 0 <= i < q.len() implies !(#[trigger] q[i]).contains(c) by {
            if s.last() == c {
                if i < p.len() {
                    assert(q[i] == p[i]);
                }
            } else {
                if i < p.len() - 1 {
                    assert(q[i] == p[i]);
                } else {
                    assert(q[i] == p.last().push(s.last()));
                    assert(!p[p.len() - 1].contains(c));
                    if q[i].contains(c) {
                        let k = choose|k: int| 0 <= k < q[i].len() && q[i][k] == c;
                        if k < p.last().len() {
                            assert(p.last()[k] == c);
                        }
                    }
                }
            }
        }
    }
}

proof fn lemma_split_at_last(a: Seq<char>, b: Seq<char>, c: char)
    requires
        !b.contains(c),
    ensures
        split_on(a + seq![c] + b, c) == split_on(a, c).push(b),
    decreases b.len(),
{
    let s = a + seq![c] + b;
    if b.len() == 0 {
        assert(s.drop_last() =~= a);
        assert(b =~= Seq::<char>::empty());
    } else {
        let t = b.drop_last();
        assert(!t.contains(c)) by {
            if t.contains(c) {
                let k = choose|k: int| 0 <= k < t.len() && t[k] == c;
                assert(b[k] == c);
            }
        }
        assert(b[b.len() - 1] != c);
        lemma_split_at_last(a, t, c);
        assert(s.drop_last() =~= a + seq![c] + t);
        assert(s.last() == b.last());
        let p = split_on(a, c).push(t);
        assert(p.drop_last() =~= split_on(a, c));
        assert(t.push(b.last()) =~= b);
        assert(split_on(s, c) =~= split_on(a, c).push(b));
    }
}

/// Splitting undoes joining, where no piece holds the separator.
pub proof fn law_split_of_join(v: Seq<Seq<char>>, c: char)
    requires
        v.len() > 0,
        forall|i: int| 0 <= i < v.len() ==> !(#[trigger] v[i]).contains(c),
    ensures
        split_on(join(v, seq![c]), c) == v,
    decreases v.len(),
{
    if v.len() == 1 {
        lemma_split_plain(v[0], c);
        assert(v =~= seq![v[0]]);
    } else {
        let head = v.drop_last();
        assert forall|i: int| 0 <= i < head.len() implies !(#[trigger] head[i]).contains(c) by {
            assert(head[i] == v[i]);
        }
        law_split_of_join(head, c);
        assert(!v[v.len() - 1].contains(c));
        lemma_split_at_last(join(head, seq![c]), v.last(), c);
        assert(v =~= head.push(v.last()));
    }
}

proof fn lemma_split_plain(s: Seq<char>, c: char)
    requires
        !s.contains(c),
    ensures
        split_on(s, c) == seq![s],
    decreases s.len(),
{
    if s.len() == 0 {
        assert(s =~= Seq::<char>::empty());
    } else {
        let t = s.drop_last();
        assert(!t.contains(c)) by {
            if t.contains(c) {
                let k = choose|k: int| 0 <= k < t.len() && t[k] == c;
                assert(s[k] == c);
            }
        }
        assert(s[s.len() - 1] != c);
        lemma_split_plain(t, c);
        assert(t.push(s.last()) =~= s);
        assert(split_on(s, c) =~= seq![s]);
    }
}

/// The views of a list of texts.
pub open spec fn views(v: Seq<String>) -> Seq<Seq<char>> {
    v.map_values(|s: String| s@)
}

/// The pairs of texts in a list.
pub open spec fn pairs_view(v: Seq<(String, String)>) -> Seq<(Seq<char>, Seq<char>)> {
    v.map_values(|p: (String, String)| (p.0@, p.1@))
}

/// The views of a list of runs of characters.
pub open spec fn runs(v: Seq<Vec<char>>) -> Seq<Seq<char>> {
    v.map_values(|s: Vec<char>| s@)
}

/// The pieces of `s` between the occurrences of `c`.
pub fn split_chars(s: &[char], c: char) -> (r: Vec<Vec<char>>)
    ensures
        runs(r@) == split_on(s@, c),
        r@.len() >= 1,
{
    let mut r: Vec<Vec<char>> = Vec::new();
    let mut piece: Vec<char> = Vec::new();
    let mut i: usize = 0;
    assert(s@.take(0) == Seq::<char>::empty());
    while i < s.len()
        invariant
            i <= s@.len(),
            runs(r@).push(piece@) == split_on(s@.take(i as int), c),
        decreases s@.len() - i,
    {
        let ghost before = runs(r@).push(piece@);
        let ghost old_piece = piece@;
        assert(s@.take(i + 1).drop_last() == s@.take(i as int));
        assert(before.drop_last() == runs(r@));
        assert(before.last() == piece@);
        if s[i] == c {
            let ghost old_r = r@;
            r.push(piece);
            assert(runs(r@) == runs(old_r).push(old_piece));
            piece = Vec::new();
        } else {
            piece.push(s[i]);
        }
        i = i + 1;
    }
    assert(s@.take(s@.len() as int) == s@);
    let ghost old_r = r@;
    let ghost old_piece = piece@;
    r.push(piece);
    assert(runs(r@) == runs(old_r).push(old_piece));
    r
}

/// The texts put together, with `sep` between two of them.
pub fn join_strings(v: &Vec<String>, sep: &str) -> (r: String)
    ensures
        r@ == join(views(v@), sep@),
{
    let mut r = String::new();
    let mut i: usize = 0;
    while i < v.len()
        invariant
            i <= v@.len(),
            r@ == join(views(v@).take(i as int), sep@),
        decreases v@.len() - i,
    {
        let ghost head = views(v@).take(i as int);
        let ghost next = views(v@).take(i + 1);
        assert(next.drop_last() == head);
        assert(next.last() == v@[i as int]@);
        if i > 0 {
            r.append(sep);
        }
        r.append(v[i].as_str());
        if i == 0 {
            assert(head.len() == 0);
            assert(r@ == v@[0]@);
        }
        i = i + 1;
    }
    assert(views(v@).take(v@.len() as int) == views(v@));
    r
}

/// A list of texts, copied.
pub fn clone_strings(v: &Vec<String>) -> (r: Vec<String>)
    ensures
        r@ == v@,
{
    let mut r: Vec<String> = Vec::new();
    let mut i: usize = 0;
    while i < v.len()
        invariant
            i <= v@.len(),
            r@ == v@.take(i as int),
        decreases v@.len() - i,
    {
        r.push(v[i].clone());
        i = i + 1;
    }
    assert(v@.take(v@.len() as int) == v@);
    r
}

/// Appends the texts of one list to another.
pub fn append_strings(out: &mut Vec<String>, more: Vec<String>)
    ensures
        views(final(out)@) == views(old(out)@) + views(more@),
{
    let ghost first = out@;
    let ghost source = more@;
    for s in it: more
        invariant
            it.seq() == source,
            out@ == first + source.take(it.index() as int),
    {
        proof {
            let k = it.index() as int;
            assert(source.take(k + 1) =~= source.take(k).push(source[k]));
        }
        out.push(s);
    }
    assert(source.take(source.len() as int) =~= source);
    assert(views(out@) =~= views(first) + views(source));
}

/// Whether `s` is one of `v`.
pub fn listed(v: &Vec<String>, s: &str) -> (r: bool)
    ensures
        r == views(v@).contains(s@),
{
    let mut i: usize = 0;
    while i < v.len()
        invariant
            i <= v@.len(),
            forall|k: int| 0 <= k < i ==> v@[k]@ != s@,
        decreases v@.len() - i,
    {
        if same(v[i].as_str(), s) {
            assert(views(v@)[i as int] == s@);
            return true;
        }
        i = i + 1;
    }
    assert forall|k: int| 0 <= k < views(v@).len() implies views(v@)[k] != s@ by {
        assert(views(v@)[k] == v@[k]@);
    }
    false
}

// ---------------------------------------------------------------------------
// Numbers
// ---------------------------------------------------------------------------

/// The code point of `c`.
pub fn code(c: char) -> (n: u32)
    ensures
        n as int == c as int,
{
    c as u32
}

/// The decimal digit `d`.
pub open spec fn digit(d: nat) -> char {
    (0x30 + d) as char
}

/// `n` in decimal, without leading zeros.
pub open spec fn decimal(n: nat) -> Seq<char>
    decreases n,
{
    if n < 10 {
        seq![digit(n)]
    } else {
        decimal(n / 10).push(digit(n % 10))
    }
}

/// An integer in decimal, with a minus sign where it is negative.
pub open spec fn decimal_int(n: int) -> Seq<char> {
    if n < 0 {
        seq!['-'] + decimal((-n) as nat)
    } else {
        decimal(n as nat)
    }
}

fn digit_char(d: u128) -> (c: char)
    requires
        d < 10,
    ensures
        c == digit(d as nat),
{
    if d == 0 {
        '0'
    } else if d == 1 {
        '1'
    } else if d == 2 {
        '2'
    } else if d == 3 {
        '3'
    } else if d == 4 {
        '4'
    } else if d == 5 {
        '5'
    } else if d == 6 {
        '6'
    } else if d == 7 {
        '7'
    } else if d == 8 {
        '8'
    } else {
        '9'
    }
}

/// Appends `n` in decimal.
pub fn push_wide_decimal(out: &mut String, n: u128)
    ensures
        final(out)@ == old(out)@ + decimal(n as nat),
    decreases n,
{
    if n >= 10 {
        push_wide_decimal(out, n / 10);
    }
    out.push(digit_char(n % 10));
    assert(out@ =~= old(out)@ + decimal(n as nat));
}

/// Appends `n` in decimal.
pub fn push_decimal(out: &mut String, n: u64)
    ensures
        final(out)@ == old(out)@ + decimal(n as nat),
{
    push_wide_decimal(out, n as u128);
}

/// `n` in decimal.
pub fn decimal_of(n: u64) -> (r: String)
    ensures
        r@ == decimal(n as nat),
{
    let mut r = String::new();
    push_decimal(&mut r, n);
    assert(r@ == decimal(n as nat));
    r
}

/// `n` in decimal, with a minus sign where it is negative.
pub fn decimal_of_int(n: i64) -> (r: String)
    ensures
        r@ == decimal_int(n as int),
{
    let mut r = String::new();
    if n < 0 {
        r.push('-');
        let m: u64 = if n == i64::MIN {
            0x8000_0000_0000_0000
        } else {
            (-n) as u64
        };
        push_decimal(&mut r, m);
    } else {
        push_decimal(&mut r, n as u64);
    }
    assert(r@ == decimal_int(n as int));
    r
}

/// `c` is one of `0` to `9`.
pub open spec fn is_digit(c: char) -> bool {
    0x30 <= c as int <= 0x39
}

/// The number that a run of decimal digits stands for.
pub open spec fn digits_value(s: Seq<char>) -> nat
    decreases s.len(),
{
    if s.len() == 0 {
        0
    } else {
        digits_value(s.drop_last()) * 10 + (s.last() as int - 0x30) as nat
    }
}

/// `s` without the plus sign that it may start with.
pub open spec fn unsigned_part(s: Seq<char>) -> Seq<char> {
    if s.len() > 0 && s[0] == '+' {
        s.drop_first()
    } else {
        s
    }
}

/// Every character is a decimal digit.
pub open spec fn all_digits(s: Seq<char>) -> bool {
    forall|i: int| 0 <= i < s.len() ==> is_digit(#[trigger] s[i])
}

/// What a text denotes as an unsigned number: an optional `+`, then at least one decimal
/// digit and nothing else.
pub open spec fn parse_nat(s: Seq<char>) -> Option<nat> {
    let t = unsigned_part(s);
    if t.len() > 0 && all_digits(t) {
        Some(digits_value(t))
    } else {
        None
    }
}

/// The unsigned number that a text denotes, where it is at most `u64::MAX`.
pub fn parse_u64(s: &[char]) -> (r: Option<u64>)
    ensures
        match r {
            Some(n) => parse_nat(s@) == Some(n as nat),
            None => parse_nat(s@) is None || parse_nat(s@)->0 > u64::MAX,
        },
{
    let from: usize = if s.len() > 0 && s[0] == '+' {
        1
    } else {
        0
    };
    let ghost t = unsigned_part(s@);
    assert(t == s@.skip(from as int));
    if from == s.len() {
        return None;
    }
    let mut n: u64 = 0;
    let mut i: usize = from;
    let mut fits = true;
    assert(t.take(0) == Seq::<char>::empty());
    while i < s.len()
        invariant
            from <= i <= s@.len(),
            t == s@.skip(from as int),
            t == unsigned_part(s@),
            forall|k: int| 0 <= k < i - from ==> is_digit(#[trigger] t[k]),
            fits ==> n as nat == digits_value(t.take(i - from)),
            !fits ==> digits_value(t.take(i - from)) > u64::MAX,
        decreases s@.len() - i,
    {
        let c: u32 = code(s[i]);
        assert(t[i - from] == s@[i as int]);
        assert(t.take(i - from + 1).drop_last() == t.take(i - from));
        if c < 0x30 || c > 0x39 {
            assert(!is_digit(t[i - from]));
            assert(!all_digits(t));
            return None;
        }
        let d: u64 = (c - 0x30) as u64;
        if fits {
            if n > (u64::MAX - d) / 10 {
                assert(n * 10 + d > u64::MAX);
                fits = false;
            } else {
                n = n * 10 + d;
            }
        }
        i = i + 1;
    }
    assert(t.take(t.len() as int) == t);
    if fits {
        Some(n)
    } else {
        None
    }
}

// ---------------------------------------------------------------------------
// Order
// ---------------------------------------------------------------------------

/// `a` comes before `b` in the order of dictionaries, by code point.
pub open spec fn before(a: Seq<char>, b: Seq<char>) -> bool
    decreases a.len(),
{
    if b.len() == 0 {
        false
    } else if a.len() == 0 {
        true
    } else if a[0] != b[0] {
        (a[0] as int) < (b[0] as int)
    } else {
        before(a.drop_first(), b.drop_first())
    }
}

/// Whether `a` comes before `b`, by code point.
pub fn comes_before(a: &[char], b: &[char]) -> (r: bool)
    ensures
        r == before(a@, b@),
{
    let mut i: usize = 0;
    assert(a@.skip(0) == a@);
    assert(b@.skip(0) == b@);
    while i < a.len() && i < b.len()
        invariant
            i <= a@.len(),
            i <= b@.len(),
            before(a@, b@) == before(a@.skip(i as int), b@.skip(i as int)),
        decreases a@.len() - i,
    {
        if a[i] != b[i] {
            return code(a[i]) < code(b[i]);
        }
        assert(a@.skip(i as int).drop_first() == a@.skip(i + 1));
        assert(b@.skip(i as int).drop_first() == b@.skip(i + 1));
        i = i + 1;
    }
    i < b.len()
}

/// Whether `a` comes before `b`, by code point.
pub fn str_before(a: &str, b: &str) -> (r: bool)
    ensures
        r == before(a@, b@),
{
    comes_before(&chars_of(a), &chars_of(b))
}

/// Of two different texts exactly one comes before the other, and none before itself.
pub proof fn lemma_before_total(a: Seq<char>, b: Seq<char>)
    ensures
        before(a, b) ==> !before(b, a) && a != b,
        a != b ==> before(a, b) || before(b, a),
    decreases a.len(),
{
    if a.len() > 0 && b.len() > 0 && a[0] == b[0] {
        lemma_before_total(a.drop_first(), b.drop_first());
        if a != b && a.drop_first() == b.drop_first() {
            assert(a == seq![a[0]] + a.drop_first());
            assert(b == seq![b[0]] + b.drop_first());
        }
    } else if a.len() == 0 && b.len() == 0 {
        assert(a == b);
    }
}

/// The order carries over: what comes before `b` comes before everything after `b`.
pub proof fn lemma_before_transitive(a: Seq<char>, b: Seq<char>, c: Seq<char>)
    requires
        before(a, b),
        before(b, c),
    ensures
        before(a, c),
    decreases a.len(),
{
    if a.len() > 0 && b.len() > 0 && c.len() > 0 && a[0] == b[0] && b[0] == c[0] {
        lemma_before_transitive(a.drop_first(), b.drop_first(), c.drop_first());
    }
}

// ---------------------------------------------------------------------------
// Counting and replacing
// ---------------------------------------------------------------------------

/// How often `needle` stands in `s` from position `i` on, without overlaps.
pub open spec fn count_from(s: Seq<char>, needle: Seq<char>, i: int) -> nat
    decreases s.len() - i,
{
    if needle.len() == 0 || i < 0 || i > s.len() {
        0
    } else {
        match find_from(s, needle, i) {
            None => 0,
            Some(j) => {
                proof {
                    lemma_find_from(s, needle, i);
                }
                1 + count_from(s, needle, j + needle.len())
            },
        }
    }
}

/// How often `needle` stands in `s` without overlaps; an empty one stands before every
/// character and at the end.
pub open spec fn count(s: Seq<char>, needle: Seq<char>) -> nat {
    if needle.len() == 0 {
        s.len() + 1
    } else {
        count_from(s, needle, 0)
    }
}

/// `s` from position `i` on, with `to` in place of each `needle`.
pub open spec fn replaced_from(s: Seq<char>, needle: Seq<char>, to: Seq<char>, i: int) -> Seq<char>
    decreases s.len() - i,
{
    if needle.len() == 0 || i < 0 || i > s.len() {
        Seq::empty()
    } else {
        match find_from(s, needle, i) {
            None => s.skip(i),
            Some(j) => {
                proof {
                    lemma_find_from(s, needle, i);
                }
                s.subrange(i, j) + to + replaced_from(s, needle, to, j + needle.len())
            },
        }
    }
}

/// `to`, then each character of `s` followed by `to`.
pub open spec fn interleaved(s: Seq<char>, to: Seq<char>) -> Seq<char>
    decreases s.len(),
{
    if s.len() == 0 {
        to
    } else {
        interleaved(s.drop_last(), to).push(s.last()) + to
    }
}

/// `s` with `to` in place of each `needle`.
pub open spec fn replaced(s: Seq<char>, needle: Seq<char>, to: Seq<char>) -> Seq<char> {
    if needle.len() == 0 {
        interleaved(s, to)
    } else {
        replaced_from(s, needle, to, 0)
    }
}

/// How often `needle` stands in `s` without overlaps.
pub fn count_chars(s: &[char], needle: &[char]) -> (n: u128)
    ensures
        n as nat == count(s@, needle@),
{
    if needle.len() == 0 {
        return s.len() as u128 + 1;
    }
    let len = s.len();
    let mut n: u128 = 0;
    let mut i: usize = 0;
    loop
        invariant
            i <= s@.len(),
            len == s@.len(),
            n <= i,
            needle@.len() > 0,
            count(s@, needle@) == n + count_from(s@, needle@, i as int),
        decreases s@.len() - i,
    {
        match find_chars(s, needle, i) {
            None => {
                return n;
            },
            Some(j) => {
                proof {
                    lemma_find_from(s@, needle@, i as int);
                }
                n = n + 1;
                i = j + needle.len();
            },
        }
    }
}

/// `s` with `to` in place of each `needle`.
pub fn replace_chars(s: &[char], needle: &[char], to: &[char]) -> (r: Vec<char>)
    ensures
        r@ == replaced(s@, needle@, to@),
{
    let mut r: Vec<char> = Vec::new();
    if needle.len() == 0 {
        extend(&mut r, to);
        assert(r@ =~= interleaved(s@.take(0), to@));
        let mut k: usize = 0;
        while k < s.len()
            invariant
                k <= s@.len(),
                r@ == interleaved(s@.take(k as int), to@),
            decreases s@.len() - k,
        {
            assert(s@.take(k + 1).drop_last() == s@.take(k as int));
            r.push(s[k]);
            extend(&mut r, to);
            k = k + 1;
        }
        assert(s@.take(s@.len() as int) == s@);
        return r;
    }
    let len = s.len();
    let mut i: usize = 0;
    assert(r@ + replaced_from(s@, needle@, to@, 0) =~= replaced(s@, needle@, to@));
    loop
        invariant
            i <= s@.len(),
            len == s@.len(),
            needle@.len() > 0,
            r@ + replaced_from(s@, needle@, to@, i as int) == replaced(s@, needle@, to@),
        decreases s@.len() - i,
    {
        match find_chars(s, needle, i) {
            None => {
                let tail = cut(s, i, s.len());
                assert(tail@ == s@.skip(i as int));
                extend(&mut r, &tail);
                return r;
            },
            Some(j) => {
                proof {
                    lemma_find_from(s@, needle@, i as int);
                }
                let ghost before = r@;
                let mid = cut(s, i, j);
                extend(&mut r, &mid);
                extend(&mut r, to);
                i = j + needle.len();
                assert(r@ + replaced_from(s@, needle@, to@, i as int) =~= before + (mid@ + to@
                    + replaced_from(s@, needle@, to@, i as int)));
            },
        }
    }
}

/// What `str::to_uppercase` gives for a text.
pub uninterp spec fn uppercase(s: Seq<char>) -> Seq<char>;

/// `str::to_uppercase`: the upper-case equivalent of `s` by the Unicode tables, which depends
/// on `s` alone.
#[verifier::external_body]
pub(crate) fn to_uppercase(s: &str) -> (r: String)
    ensures
        r@ == uppercase(s@),
{
    s.to_uppercase()
}

// ---------------------------------------------------------------------------
// Lines
// ---------------------------------------------------------------------------

/// A line without the carriage return that it may end with.
pub open spec fn without_cr(s: Seq<char>) -> Seq<char> {
    if s.len() > 0 && s.last() == '\r' {
        s.drop_last()
    } else {
        s
    }
}

/// The lines of a text, as `str::lines` gives them: a line ends with a line feed, or with a
/// carriage return and a line feed, and the end of the text ends a line that is not empty.
pub open spec fn text_lines(s: Seq<char>) -> Seq<Seq<char>> {
    let pieces = split_on(s, '\n');
    pieces.drop_last().map_values(|p: Seq<char>| without_cr(p)) + (if pieces.last().len() == 0 {
        Seq::empty()
    } else {
        seq![pieces.last()]
    })
}

/// The lines of a text.
pub fn lines_chars(s: &[char]) -> (r: Vec<Vec<char>>)
    ensures
        runs(r@) == text_lines(s@),
{
    let pieces = split_chars(s, '\n');
    let ghost pv = split_on(s@, '\n');
    let n = pieces.len();
    let mut r: Vec<Vec<char>> = Vec::new();
    let mut i: usize = 0;
    let ghost want = pv.drop_last().map_values(|p: Seq<char>| without_cr(p));
    assert(runs(r@) =~= want.take(0));
    while i < n - 1
        invariant
            i <= n - 1,
            n == pieces@.len(),
            n >= 1,
            pv == runs(pieces@),
            want == pv.drop_last().map_values(|p: Seq<char>| without_cr(p)),
            runs(r@) == want.take(i as int),
        decreases n - 1 - i,
    {
        let ghost before = r@;
        let len = pieces[i].len();
        assert(pv[i as int] == pieces@[i as int]@);
        let line = if len > 0 && pieces[i][len - 1] == '\r' {
            let c = cut(&pieces[i], 0, len - 1);
            assert(c@ =~= pv[i as int].drop_last());
            c
        } else {
            let c = cut(&pieces[i], 0, len);
            assert(c@ =~= pv[i as int]);
            c
        };
        r.push(line);
        assert(runs(r@) =~= runs(before).push(line@));
        assert(want.take(i + 1) =~= want.take(i as int).push(want[i as int]));
        i = i + 1;
    }
    assert(want.take(n - 1) =~= want);
    assert(pv[n - 1] == pieces@[n - 1]@);
    let len = pieces[n - 1].len();
    if len > 0 {
        let ghost before = r@;
        let last = cut(&pieces[n - 1], 0, len);
        assert(last@ =~= pv.last());
        r.push(last);
        assert(runs(r@) =~= runs(before).push(last@));
    }
    assert(runs(r@) =~= text_lines(s@));
    r
}

// ---------------------------------------------------------------------------
// White-space separated words, slashes
// ---------------------------------------------------------------------------

/// The words of a text: its longest runs without white space.
pub open spec fn words(s: Seq<char>) -> Seq<Seq<char>> {
    pending_words(s).0 + (if pending_words(s).1.len() == 0 {
        Seq::empty()
    } else {
        seq![pending_words(s).1]
    })
}

/// The words that are complete, and the one that is under way at the end.
pub open spec fn pending_words(s: Seq<char>) -> (Seq<Seq<char>>, Seq<char>)
    decreases s.len(),
{
    if s.len() == 0 {
        (Seq::empty(), Seq::empty())
    } else {
        let (done, word) = pending_words(s.drop_last());
        if !is_white(s.last()) {
            (done, word.push(s.last()))
        } else if word.len() == 0 {
            (done, word)
        } else {
            (done.push(word), Seq::empty())
        }
    }
}

/// The words of a text.
pub fn split_words(s: &str) -> (r: Vec<String>)
    ensures
        views(r@) == words(s@),
{
    let cs = chars_of(s);
    let mut r: Vec<String> = Vec::new();
    let mut word: Vec<char> = Vec::new();
    let mut i: usize = 0;
    assert(views(r@) =~= pending_words(cs@.take(0)).0);
    while i < cs.len()
        invariant
            i <= cs@.len(),
            views(r@) == pending_words(cs@.take(i as int)).0,
            word@ == pending_words(cs@.take(i as int)).1,
        decreases cs@.len() - i,
    {
        assert(cs@.take(i + 1).drop_last() =~= cs@.take(i as int));
        if !white(cs[i]) {
            word.push(cs[i]);
        } else if word.len() > 0 {
            let ghost before = r@;
            let w = string_of(&word);
            r.push(w);
            assert(views(r@) =~= views(before).push(w@));
            word = Vec::new();
            assert(word@ =~= Seq::<char>::empty());
        }
        i = i + 1;
    }
    assert(cs@.take(cs@.len() as int) =~= cs@);
    if word.len() > 0 {
        let ghost before = r@;
        let w = string_of(&word);
        r.push(w);
        assert(views(r@) =~= views(before).push(w@));
    }
    assert(views(r@) =~= words(s@));
    r
}

/// `s` with every backslash turned into a slash.
pub open spec fn with_slashes(s: Seq<char>) -> Seq<char> {
    s.map_values(
        |c: char|
            if c == '\\' {
                '/'
            } else {
                c
            },
    )
}

/// `s` with every backslash turned into a slash.
pub fn to_slashes(s: &str) -> (r: String)
    ensures
        r@ == with_slashes(s@),
{
    let cs = chars_of(s);
    let ghost want = with_slashes(s@);
    let mut r = String::new();
    let mut i: usize = 0;
    while i < cs.len()
        invariant
            i <= cs@.len(),
            want == with_slashes(cs@),
            r@ == want.take(i as int),
        decreases cs@.len() - i,
    {
        if cs[i] == '\\' {
            r.push('/');
        } else {
            r.push(cs[i]);
        }
        assert(want.take(i + 1) =~= want.take(i as int).push(want[i as int]));
        i = i + 1;
    }
    assert(want.take(want.len() as int) =~= want);
    r
}

/// `s` without the slashes that it ends with.
pub open spec fn without_end_slashes(s: Seq<char>) -> Seq<char>
    decreases s.len(),
{
    if s.len() > 0 && s.last() == '/' {
        without_end_slashes(s.drop_last())
    } else {
        s
    }
}

/// `s` without the slashes that it ends with.
pub fn strip_end_slashes(s: &[char]) -> (r: Vec<char>)
    ensures
        r@ == without_end_slashes(s@),
{
    let mut n: usize = s.len();
    assert(s@.take(s@.len() as int) =~= s@);
    while n > 0 && s[n - 1] == '/'
        invariant
            n <= s@.len(),
            without_end_slashes(s@) == without_end_slashes(s@.take(n as int)),
        decreases n,
    {
        assert(s@.take(n as int).drop_last() =~= s@.take(n - 1));
        n = n - 1;
    }
    let r = cut(s, 0, n);
    assert(r@ =~= s@.take(n as int));
    r
}

/// How many bytes a text takes in UTF-8.
pub open spec fn byte_len(s: Seq<char>) -> nat {
    vstd::utf8::encode_utf8(s).len()
}

/// How many bytes a text takes in UTF-8.
pub fn bytes_in(s: &str) -> (n: usize)
    ensures
        n as nat == byte_len(s@),
{
    s.as_bytes().len()
}

// ---------------------------------------------------------------------------
// ASCII case and UTF-8
// ---------------------------------------------------------------------------

/// The character lies between `a` and `b`, both included.
pub open spec fn in_range(c: char, a: char, b: char) -> bool {
    a as int <= c as int && c as int <= b as int
}

/// The character in lower case, where it is an ASCII capital.
pub open spec fn lower(c: char) -> char {
    if in_range(c, 'A', 'Z') {
        (c as int + 32) as char
    } else {
        c
    }
}

/// The character in upper case, where it is a small ASCII letter.
pub open spec fn upper(c: char) -> char {
    if in_range(c, 'a', 'z') {
        (c as int - 32) as char
    } else {
        c
    }
}

/// A text with its ASCII capitals in lower case.
pub open spec fn ascii_lower(s: Seq<char>) -> Seq<char> {
    s.map_values(|c: char| lower(c))
}

/// A text with its small ASCII letters in upper case.
pub open spec fn ascii_upper(s: Seq<char>) -> Seq<char> {
    s.map_values(|c: char| upper(c))
}

fn shift_down(c: char) -> (r: char)
    ensures
        r == lower(c),
{
    let n = code(c);
    if 65 <= n && n <= 90 {
        let low: u8 = (n + 32) as u8;
        low as char
    } else {
        c
    }
}

fn shift_up(c: char) -> (r: char)
    ensures
        r == upper(c),
{
    let n = code(c);
    if 97 <= n && n <= 122 {
        let high: u8 = (n - 32) as u8;
        high as char
    } else {
        c
    }
}

/// `s` with its ASCII capitals in lower case.
pub fn to_lower(s: &[char]) -> (r: Vec<char>)
    ensures
        r@ == ascii_lower(s@),
{
    let ghost want = ascii_lower(s@);
    let mut r: Vec<char> = Vec::new();
    let mut i: usize = 0;
    while i < s.len()
        invariant
            i <= s@.len(),
            want == ascii_lower(s@),
            r@ == want.take(i as int),
        decreases s@.len() - i,
    {
        r.push(shift_down(s[i]));
        assert(want.take(i + 1) =~= want.take(i as int).push(want[i as int]));
        i = i + 1;
    }
    assert(want.take(want.len() as int) =~= want);
    r
}

/// `s` with its small ASCII letters in upper case.
pub fn to_upper(s: &[char]) -> (r: Vec<char>)
    ensures
        r@ == ascii_upper(s@),
{
    let ghost want = ascii_upper(s@);
    let mut r: Vec<char> = Vec::new();
    let mut i: usize = 0;
    while i < s.len()
        invariant
            i <= s@.len(),
            want == ascii_upper(s@),
            r@ == want.take(i as int),
        decreases s@.len() - i,
    {
        r.push(shift_up(s[i]));
        assert(want.take(i + 1) =~= want.take(i as int).push(want[i as int]));
        i = i + 1;
    }
    assert(want.take(want.len() as int) =~= want);
    r
}

/// What bytes say as UTF-8; none where they are no UTF-8.
pub open spec fn utf8_text(bytes: Seq<u8>) -> Option<Seq<char>> {
    if vstd::utf8::valid_utf8(bytes) {
        Some(vstd::utf8::decode_utf8(bytes))
    } else {
        None
    }
}

/// What is said of bytes that are no UTF-8.
pub uninterp spec fn utf8_fault(bytes: Seq<u8>) -> Seq<char>;

/// `std::str::from_utf8`: the text that the bytes encode where they are valid UTF-8, else the
/// message of the error, which depends on the bytes alone.
#[verifier::external_body]
pub(crate) fn from_utf8(bytes: &[u8]) -> (r: Result<&str, String>)
    ensures
        match r {
            Ok(s) => utf8_text(bytes@) == Some(s@),
            Err(e) => utf8_text(bytes@) is None && e@ == utf8_fault(bytes@),
        },
{
    std::str::from_utf8(bytes).map_err(|e| e.to_string())
}

/// The text that bytes give where what is no UTF-8 is replaced.
pub uninterp spec fn lossy_text(bytes: Seq<u8>) -> Seq<char>;

/// `String::from_utf8_lossy`: bytes that are valid UTF-8 give the text that they encode; in
/// other bytes each invalid sequence is replaced, which is not spelled out here.
#[verifier::external_body]
pub(crate) fn from_utf8_lossy(bytes: &[u8]) -> (r: String)
    ensures
        r@ == lossy_text(bytes@),
        utf8_text(bytes@) is Some ==> r@ == utf8_text(bytes@)->0,
{
    String::from_utf8_lossy(bytes).into_owned()
}

/// A text without the separator is its only piece.
pub proof fn law_split_without(s: Seq<char>, c: char)
    requires
        !s.contains(c),
    ensures
        split_on(s, c) == seq![s],
{
    lemma_split_plain(s, c);
}

/// A text that stands in one place only stands there once.
pub proof fn law_count_of_one(s: Seq<char>, needle: Seq<char>, k: int)
    requires
        needle.len() > 0,
        occurs_at(s, needle, k),
        forall|j: int| #[trigger] occurs_at(s, needle, j) ==> j == k,
    ensures
        find_from(s, needle, 0) == Some(k),
        count(s, needle) == 1,
{
    lemma_find_from(s, needle, 0);
    lemma_find_from(s, needle, k + needle.len());
    assert(count_from(s, needle, k + needle.len()) == 0);
}

/// A text that stands in two places without overlap stands there at least twice.
pub proof fn law_count_of_two(s: Seq<char>, needle: Seq<char>, j: int, k: int)
    requires
        needle.len() > 0,
        occurs_at(s, needle, j),
        occurs_at(s, needle, k),
        j + needle.len() <= k,
    ensures
        contains(s, needle),
        count(s, needle) >= 2,
{
    lemma_find_from(s, needle, 0);
    let first = find_from(s, needle, 0)->0;
    assert(first <= j);
    lemma_find_from(s, needle, first + needle.len());
    assert(find_from(s, needle, first + needle.len()) is Some);
    assert(count_from(s, needle, first + needle.len()) >= 1);
}

/// What is behind a place does not depend on what is before it.
proof fn lemma_find_shifted(s: Seq<char>, needle: Seq<char>, i: int, from: int)
    requires
        0 <= i <= from,
        i <= s.len(),
    ensures
        find_from(s.skip(i), needle, from - i) == (match find_from(s, needle, from) {
            Some(j) => Some(j - i),
            None => None,
        }),
    decreases s.len() - from + 1,
{
    if from + needle.len() <= s.len() {
        assert(s.skip(i).subrange(from - i, from - i + needle.len()) =~= s.subrange(
            from,
            from + needle.len(),
        ));
        if !occurs_at(s, needle, from) {
            lemma_find_shifted(s, needle, i, from + 1);
        }
    }
}

proof fn lemma_replaced_shifted(s: Seq<char>, needle: Seq<char>, to: Seq<char>, i: int, from: int)
    requires
        needle.len() > 0,
        0 <= i <= from <= s.len(),
    ensures
        replaced_from(s.skip(i), needle, to, from - i) == replaced_from(s, needle, to, from),
        count_from(s.skip(i), needle, from - i) == count_from(s, needle, from),
    decreases s.len() - from,
{
    lemma_find_shifted(s, needle, i, from);
    lemma_find_from(s, needle, from);
    match find_from(s, needle, from) {
        None => {
            assert(s.skip(i).skip(from - i) =~= s.skip(from));
        },
        Some(j) => {
            lemma_replaced_shifted(s, needle, to, i, j + needle.len());
            assert(s.skip(i).subrange(from - i, j - i) =~= s.subrange(from, j));
        },
    }
}

/// Replacing goes from the front: what is before the first place stays, the new text stands
/// for the old one, and the rest is replaced in the same way. Where the text stands nowhere
/// nothing is changed.
pub proof fn law_replaced(a: Seq<char>, needle: Seq<char>, b: Seq<char>, to: Seq<char>)
    requires
        needle.len() > 0,
        forall|j: int| 0 <= j < a.len() ==> !#[trigger] occurs_at(a + needle + b, needle, j),
    ensures
        replaced(a + needle + b, needle, to) == a + to + replaced(b, needle, to),
        count(a + needle + b, needle) == 1 + count(b, needle),
{
    let s = a + needle + b;
    let k = a.len() as int;
    assert(s.subrange(k, k + needle.len()) =~= needle);
    assert(occurs_at(s, needle, k));
    lemma_find_from(s, needle, 0);
    assert(find_from(s, needle, 0) == Some(k));
    assert(s.subrange(0, k) =~= a);
    assert(s.skip(k + needle.len()) =~= b);
    lemma_replaced_shifted(s, needle, to, k + needle.len(), k + needle.len());
}

/// A text that stands nowhere is not replaced.
pub proof fn law_nothing_replaced(s: Seq<char>, needle: Seq<char>, to: Seq<char>)
    requires
        needle.len() > 0,
        forall|j: int| !#[trigger] occurs_at(s, needle, j),
    ensures
        replaced(s, needle, to) == s,
        count(s, needle) == 0,
        !contains(s, needle),
{
    lemma_find_from(s, needle, 0);
    if find_from(s, needle, 0) is Some {
        assert(!occurs_at(s, needle, find_from(s, needle, 0)->0));
    }
    assert(s.skip(0) =~= s);
}

/// The last position of a character is one that holds it, and no later one does; there is none
/// exactly where the text does not hold the character.
pub proof fn law_last_index(s: Seq<char>, c: char)
    ensures
        match last_index_of(s, c) {
            Some(i) => 0 <= i < s.len() && s[i] == c && forall|k: int|
                i < k < s.len() ==> s[k] != c,
            None => !s.contains(c),
        },
    decreases s.len(),
{
    if s.len() > 0 && s.last() != c {
        let t = s.drop_last();
        law_last_index(t, c);
        assert(forall|k: int| 0 <= k < t.len() ==> t[k] == s[k]);
        match last_index_of(t, c) {
            Some(i) => {
                assert forall|k: int| i < k < s.len() implies s[k] != c by {
                    if k < t.len() {
                        assert(t[k] != c);
                    }
                }
            },
            None => {
                assert forall|k: int| 0 <= k < s.len() implies s[k] != c by {
                    if k < t.len() {
                        assert(!t.contains(c));
                        assert(t[k] == s[k]);
                    }
                }
            },
        }
    }
}

/// A number written in decimal is read back as that number, with or without a plus sign.
pub proof fn law_decimal_reads_back(n: nat)
    ensures
        decimal(n).len() > 0,
        all_digits(decimal(n)),
        digits_value(decimal(n)) == n,
        parse_nat(decimal(n)) == Some(n),
        parse_nat(seq!['+'] + decimal(n)) == Some(n),
    decreases n,
{
    let s = decimal(n);
    if n < 10 {
        assert(s.drop_last() =~= Seq::<char>::empty());
        assert(digits_value(s.drop_last()) == 0);
        assert(s.last() as int == 0x30 + n);
    } else {
        law_decimal_reads_back(n / 10);
        assert(s.drop_last() =~= decimal(n / 10));
        assert(s.last() as int == 0x30 + n % 10);
        assert forall|i: int| 0 <= i < s.len() implies is_digit(#[trigger] s[i]) by {
            if i < s.len() - 1 {
                assert(s[i] == decimal(n / 10)[i]);
            }
        }
    }
    assert(is_digit(s[0]));
    assert(unsigned_part(s) == s);
    assert((seq!['+'] + s).drop_first() =~= s);
}

/// A text with anything but digits behind its sign denotes no number, and neither does an empty
/// one.
pub proof fn law_no_number(s: Seq<char>, i: int)
    ensures
        parse_nat(Seq::<char>::empty()) is None,
        0 <= i < s.len() && !is_digit(s[i]) && !(i == 0 && s[0] == '+') ==> parse_nat(s) is None,
{
    if 0 <= i < s.len() && !is_digit(s[i]) && !(i == 0 && s[0] == '+') {
        let t = unsigned_part(s);
        if s[0] == '+' {
            assert(t[i - 1] == s[i]);
        } else {
            assert(t[i] == s[i]);
        }
    }
}

proof fn lemma_trim_end_of(s: Seq<char>, w: Seq<char>)
    requires
        forall|i: int| 0 <= i < w.len() ==> is_white(#[trigger] w[i]),
        s.len() > 0 ==> !is_white(s.last()),
    ensures
        trim_end(s + w) == s,
    decreases w.len(),
{
    if w.len() == 0 {
        assert(s + w =~= s);
    } else {
        assert((s + w).last() == w[w.len() - 1]);
        assert((s + w).drop_last() =~= s + w.drop_last());
        assert forall|i: int| 0 <= i < w.drop_last().len() implies is_white(
            #[trigger] w.drop_last()[i],
        ) by {
            assert(w.drop_last()[i] == w[i]);
        }
        lemma_trim_end_of(s, w.drop_last());
    }
}

proof fn lemma_trim_start_of(w: Seq<char>, s: Seq<char>)
    requires
        forall|i: int| 0 <= i < w.len() ==> is_white(#[trigger] w[i]),
        s.len() > 0 ==> !is_white(s[0]),
    ensures
        trim_start(w + s) == s,
    decreases w.len(),
{
    if w.len() == 0 {
        assert(w + s =~= s);
    } else {
        assert((w + s)[0] == w[0]);
        assert((w + s).drop_first() =~= w.drop_first() + s);
        assert forall|i: int| 0 <= i < w.drop_first().len() implies is_white(
            #[trigger] w.drop_first()[i],
        ) by {
            assert(w.drop_first()[i] == w[i + 1]);
        }
        lemma_trim_start_of(w.drop_first(), s);
    }
}

/// Trimming takes the white space at both ends away, and nothing else.
pub proof fn law_trim(before_it: Seq<char>, s: Seq<char>, behind: Seq<char>)
    requires
        forall|i: int| 0 <= i < before_it.len() ==> is_white(#[trigger] before_it[i]),
        forall|i: int| 0 <= i < behind.len() ==> is_white(#[trigger] behind[i]),
        s.len() > 0 ==> !is_white(s[0]) && !is_white(s.last()),
    ensures
        trim(before_it + s + behind) == s,
{
    if s.len() == 0 {
        let w = before_it + behind;
        assert(before_it + s + behind =~= s + w);
        assert forall|i: int| 0 <= i < w.len() implies is_white(#[trigger] w[i]) by {
            if i < before_it.len() {
                assert(w[i] == before_it[i]);
            } else {
                assert(w[i] == behind[i - before_it.len()]);
            }
        }
        lemma_trim_end_of(s, w);
        lemma_trim_start_of(s, s);
    } else {
        assert((before_it + s).last() == s.last());
        lemma_trim_end_of(before_it + s, behind);
        lemma_trim_start_of(before_it, s);
    }
}

/// A text is blank exactly where all of it is white space.
pub proof fn law_blank(s: Seq<char>)
    ensures
        is_blank(s) <==> forall|i: int| 0 <= i < s.len() ==> is_white(#[trigger] s[i]),
    decreases s.len(),
{
    if forall|i: int| 0 <= i < s.len() ==> is_white(#[trigger] s[i]) {
        law_trim(s, Seq::empty(), Seq::empty());
        assert(s + Seq::<char>::empty() + Seq::<char>::empty() =~= s);
    } else {
        let i = choose|i: int| 0 <= i < s.len() && !is_white(#[trigger] s[i]);
        lemma_trim_end_keeps(s, i);
        lemma_trim_start_keeps(trim_end(s), i);
    }
}

proof fn lemma_trim_end_keeps(s: Seq<char>, i: int)
    requires
        0 <= i < s.len(),
        !is_white(s[i]),
    ensures
        i < trim_end(s).len(),
        trim_end(s)[i] == s[i],
    decreases s.len(),
{
    if is_white(s.last()) {
        lemma_trim_end_keeps(s.drop_last(), i);
    }
}

proof fn lemma_trim_start_keeps(s: Seq<char>, i: int)
    requires
        0 <= i < s.len(),
        !is_white(s[i]),
    ensures
        trim_start(s).len() > 0,
    decreases s.len(),
{
    if is_white(s[0]) {
        lemma_trim_start_keeps(s.drop_first(), i - 1);
    }
}

/// The lines of a text are the lines that it was put together from, one line feed behind each,
/// whether or not the last line, where it is not empty, has its line feed.
pub proof fn law_lines_of_joined(v: Seq<Seq<char>>)
    requires
        v.len() > 0,
        forall|i: int| 0 <= i < v.len() ==> !(#[trigger] v[i]).contains('\n'),
        forall|i: int|
            0 <= i < v.len() ==> ((#[trigger] v[i]).len() > 0 ==> v[i].last() != '\r'),
    ensures
        text_lines(join(v, seq!['\n']) + seq!['\n']) == v,
        v.last().len() > 0 ==> text_lines(join(v, seq!['\n'])) == v,
{
    let s = join(v, seq!['\n']);
    let nl = s + seq!['\n'];
    law_split_of_join(v, '\n');
    assert(nl.drop_last() =~= s);
    assert(split_on(nl, '\n') == v.push(Seq::empty()));
    assert(v.push(Seq::<char>::empty()).drop_last() =~= v);
    assert(v.map_values(|p: Seq<char>| without_cr(p)) =~= v) by {
        assert forall|i: int| 0 <= i < v.len() implies without_cr(v[i]) == v[i] by {
            assert(v[i].len() > 0 ==> v[i].last() != '\r');
        }
    }
    assert(text_lines(nl) =~= v);
    if v.last().len() > 0 {
        let d = v.drop_last();
        assert(d.map_values(|p: Seq<char>| without_cr(p)) =~= d) by {
            assert forall|i: int| 0 <= i < d.len() implies without_cr(d[i]) == d[i] by {
                assert(d[i] == v[i]);
                assert(v[i].len() > 0 ==> v[i].last() != '\r');
            }
        }
        assert(text_lines(s) =~= v);
    }
}

/// An empty text has no lines, and a carriage return before a line feed belongs to neither line.
pub proof fn law_line_ends(line: Seq<char>)
    requires
        !line.contains('\n'),
    ensures
        text_lines(Seq::<char>::empty()) == Seq::<Seq<char>>::empty(),
        text_lines(line + seq!['\r', '\n']) == seq![line],
{
    reveal_with_fuel(split_on, 2);
    assert(split_on(Seq::<char>::empty(), '\n') =~= seq![Seq::<char>::empty()]);
    assert(text_lines(Seq::<char>::empty()) =~= Seq::<Seq<char>>::empty());
    let cr = line + seq!['\r'];
    let s = line + seq!['\r', '\n'];
    assert(s.drop_last() =~= cr);
    assert(!cr.contains('\n')) by {
        if cr.contains('\n') {
            let k = choose|k: int| 0 <= k < cr.len() && cr[k] == '\n';
            assert(line[k] == '\n');
        }
    }
    lemma_split_plain(cr, '\n');
    assert(split_on(s, '\n') == seq![cr].push(Seq::empty()));
    assert(seq![cr].push(Seq::<char>::empty()).drop_last() =~= seq![cr]);
    assert(cr.drop_last() =~= line);
    assert(text_lines(s) =~= seq![line]);
}

/// Words are told apart by white space: those of two texts with a white character between them
/// are those of the first, then those of the second. A text without white space is one word.
pub proof fn law_words(a: Seq<char>, c: char, b: Seq<char>)
    requires
        is_white(c),
    ensures
        words(a + seq![c] + b) == words(a) + words(b),
        a.len() > 0 && (forall|i: int| 0 <= i < a.len() ==> !is_white(#[trigger] a[i]))
            ==> words(a) == seq![a],
        words(Seq::<char>::empty()) == Seq::<Seq<char>>::empty(),
{
    lemma_pending_words(a, c, b);
    assert(words(a + seq![c] + b) =~= words(a) + words(b));
    lemma_one_word(a);
    if a.len() > 0 && (forall|i: int| 0 <= i < a.len() ==> !is_white(#[trigger] a[i])) {
        assert(words(a) =~= seq![a]);
    }
    assert(words(Seq::<char>::empty()) =~= Seq::<Seq<char>>::empty());
}

proof fn lemma_one_word(a: Seq<char>)
    ensures
        (forall|i: int| 0 <= i < a.len() ==> !is_white(#[trigger] a[i])) ==> pending_words(a).0
            == Seq::<Seq<char>>::empty() && pending_words(a).1 == a,
    decreases a.len(),
{
    if a.len() > 0 {
        let d = a.drop_last();
        lemma_one_word(d);
        if forall|i: int| 0 <= i < a.len() ==> !is_white(#[trigger] a[i]) {
            assert forall|i: int| 0 <= i < d.len() implies !is_white(#[trigger] d[i]) by {
                assert(d[i] == a[i]);
            }
            assert(!is_white(a[a.len() - 1]));
            assert(d.push(a.last()) =~= a);
        }
    } else {
        assert(a =~= Seq::<char>::empty());
    }
}

proof fn lemma_pending_words(a: Seq<char>, c: char, b: Seq<char>)
    requires
        is_white(c),
    ensures
        pending_words(a + seq![c] + b).0 == words(a) + pending_words(b).0,
        pending_words(a + seq![c] + b).1 == pending_words(b).1,
    decreases b.len(),
{
    let s = a + seq![c] + b;
    if b.len() == 0 {
        assert(s.drop_last() =~= a);
        assert(s.last() == c);
        assert(pending_words(s).0 =~= words(a) + pending_words(b).0);
        assert(pending_words(s).1 =~= pending_words(b).1);
    } else {
        lemma_pending_words(a, c, b.drop_last());
        assert(s.drop_last() =~= a + seq![c] + b.drop_last());
        assert(s.last() == b.last());
        assert(pending_words(s).0 =~= words(a) + pending_words(b).0);
    }
}

/// In the order of texts the first difference decides, and a text comes before what goes on
/// behind it.
pub proof fn law_order(p: Seq<char>, c: char, x: Seq<char>, d: char, y: Seq<char>)
    ensures
        before(p + seq![c] + x, p + seq![d] + y) <==> (c as int) < (d as int) || (c == d && before(
            x,
            y,
        )),
        before(p, p + seq![c] + x),
        !before(p + seq![c] + x, p),
    decreases p.len(),
{
    let a = p + seq![c] + x;
    let b = p + seq![d] + y;
    if p.len() == 0 {
        assert(a.drop_first() =~= x);
        assert(b.drop_first() =~= y);
        assert(a[0] == c && b[0] == d);
    } else {
        let q = p.drop_first();
        law_order(q, c, x, d, y);
        assert(a.drop_first() =~= q + seq![c] + x);
        assert(b.drop_first() =~= q + seq![d] + y);
        assert(a[0] == p[0] && b[0] == p[0]);
    }
}

/// Stripping the slashes at the end takes away slashes alone, and all of them.
pub proof fn law_end_slashes(s: Seq<char>)
    ensures
        without_end_slashes(s).len() > 0 ==> without_end_slashes(s).last() != '/',
        without_end_slashes(s).is_prefix_of(s),
        forall|i: int| without_end_slashes(s).len() <= i < s.len() ==> #[trigger] s[i] == '/',
    decreases s.len(),
{
    if s.len() > 0 && s.last() == '/' {
        let d = s.drop_last();
        law_end_slashes(d);
        let r = without_end_slashes(d);
        assert forall|i: int| r.len() <= i < s.len() implies #[trigger] s[i] == '/' by {
            if i < d.len() {
                assert(d[i] == '/');
            }
        }
        assert(r =~= s.take(r.len() as int));
    } else {
        assert(s =~= s.take(s.len() as int));
    }
}

/// Lower case reaches the capitals `A` to `Z` alone, upper case the letters `a` to `z` alone,
/// and each undoes the other on what the other reached.
pub proof fn law_case(c: char)
    ensures
        'A' as int <= c as int <= 'Z' as int ==> lower(c) as int == c as int + 32 && upper(lower(c))
            == c,
        'a' as int <= c as int <= 'z' as int ==> upper(c) as int == c as int - 32 && lower(upper(c))
            == c,
        !('A' as int <= c as int <= 'Z' as int) ==> lower(c) == c,
        !('a' as int <= c as int <= 'z' as int) ==> upper(c) == c,
{
}

/// White space is what Unicode takes for it: spaces, tabs and line ends, the no-break space and
/// the ideographic space among them. Letters, digits and punctuation are none.
pub proof fn law_white()
    ensures
        is_white(' ') && is_white('\t') && is_white('\n') && is_white('\r') && is_white('\u{a0}')
            && is_white('\u{3000}') && is_white('\u{2003}') && is_white('\u{85}') && is_white(
            '\u{2028}',
        ),
        !is_white('a') && !is_white('Z') && !is_white('0') && !is_white('_') && !is_white('.')
            && !is_white('/') && !is_white('#') && !is_white('\u{200b}'),
{
}

} // verus!
