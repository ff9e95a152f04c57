//! Texts as sequences of characters: searching, trimming, splitting, replacing
//! and joining.

use vstd::prelude::*;

verus! {

/// `String::push` appends one character.
pub assume_specification[ String::push ](s: &mut String, c: char)
    ensures
        final(s)@ == old(s)@.push(c),
;

/// The characters with the Unicode property `White_Space`.
pub const WHITE: [char; 25] = [
    '\u{9}', '\u{a}', '\u{b}', '\u{c}', '\u{d}', '\u{20}', '\u{85}', '\u{a0}', '\u{1680}',
    '\u{2000}', '\u{2001}', '\u{2002}', '\u{2003}', '\u{2004}', '\u{2005}', '\u{2006}',
    '\u{2007}', '\u{2008}', '\u{2009}', '\u{200a}', '\u{2028}', '\u{2029}', '\u{202f}',
    '\u{205f}', '\u{3000}',
];

// ---------------------------------------------------------------------------
// Characters of a text
// ---------------------------------------------------------------------------

/// The texts that a list of strings holds.
pub open spec fn texts(v: Seq<String>) -> Seq<Seq<char>> {
    Seq::new(v.len(), |i: int| v[i]@)
}

/// The characters of a text, in order.
pub fn to_chars(s: &str) -> (r: Vec<char>)
    ensures
        r@ == s@,
{
    let mut out: Vec<char> = Vec::new();
    for c in it: s.chars()
        invariant
            out@ == it.seq().take(it.index()),
            it.seq() == s@,
    {
        out.push(c);
    }
    out
}

/// The text made of the characters from `from` up to `to`.
pub fn from_chars(chars: &[char], from: usize, to: usize) -> (r: String)
    requires
        from <= to <= chars@.len(),
    ensures
        r@ == chars@.subrange(from as int, to as int),
{
    let mut out = String::new();
    for i in from..to
        invariant
            from <= to <= chars@.len(),
            out@ == chars@.subrange(from as int, i as int),
    {
        out.push(chars[i]);
        assert(chars@.subrange(from as int, i + 1) == chars@.subrange(from as int, i as int).push(
            chars@[i as int],
        ));
    }
    out
}

/// Copies of the first `n` strings of a list.
pub fn copy_texts(list: &[String], n: usize) -> (r: Vec<String>)
    requires
        n <= list@.len(),
    ensures
        texts(r@) == texts(list@).take(n as int),
{
    let mut out: Vec<String> = Vec::new();
    for i in 0..n
        invariant
            n <= list@.len(),
            texts(out@) == texts(list@).take(i as int),
    {
        let ghost prev = out@;
        out.push(list[i].clone());
        assert(texts(out@) =~= texts(prev).push(list@[i as int]@));
        assert(texts(list@).take(i + 1) =~= texts(list@).take(i as int).push(list@[i as int]@));
    }
    out
}

/// Appends `more` to `out`.
pub fn push_text(out: &mut String, more: &str)
    ensures
        final(out)@ == old(out)@ + more@,
{
    let ghost before = out@;
    for c in it: more.chars()
        invariant
            out@ == before + it.seq().take(it.index()),
            it.seq() == more@,
    {
        out.push(c);
    }
    assert(more@.take(more@.len() as int) == more@);
}

/// `a` followed by `b`.
pub fn concat(a: &str, b: &str) -> (r: String)
    ensures
        r@ == a@ + b@,
{
    let mut out = a.to_string();
    push_text(&mut out, b);
    out
}

/// Whether two texts are the same.
pub fn same(a: &str, b: &str) -> (r: bool)
    ensures
        r == (a@ == b@),
{
    a.to_string() == b.to_string()
}

/// Whether `c` is one of `class`.
pub fn is_one_of(class: &[char], c: char) -> (r: bool)
    ensures
        r == class@.contains(c),
{
    for i in 0..class.len()
        invariant
            forall|j: int| 0 <= j < i ==> class@[j] != c,
    {
        if class[i] == c {
            return true;
        }
    }
    false
}

// ---------------------------------------------------------------------------
// Searching
// ---------------------------------------------------------------------------

/// `p` stands in `s` at position `i`.
pub open spec fn occurs_at(s: Seq<char>, p: Seq<char>, i: int) -> bool {
    0 <= i && i + p.len() <= s.len() && s.subrange(i, i + p.len()) == p
}

/// `s` begins with `p`.
pub open spec fn begins(s: Seq<char>, p: Seq<char>) -> bool {
    occurs_at(s, p, 0)
}

/// `s` ends with `p`.
pub open spec fn ends(s: Seq<char>, p: Seq<char>) -> bool {
    occurs_at(s, p, s.len() - p.len())
}

/// `p` stands somewhere in `s`.
pub open spec fn holds_text(s: Seq<char>, p: Seq<char>) -> bool {
    exists|i: int| occurs_at(s, p, i)
}

/// The first position at or after `from` where `p` stands in `s`.
pub open spec fn find_from(s: Seq<char>, p: Seq<char>, from: int) -> Option<int>
    decreases s.len() - from + 1,
{
    if from < 0 || from + p.len() > s.len() {
        None
    } else if occurs_at(s, p, from) {
        Some(from)
    } else {
        find_from(s, p, from + 1)
    }
}

/// `find_from` gives the first occurrence, and gives none only where there is none.
pub proof fn lemma_find_from(s: Seq<char>, p: Seq<char>, from: int)
    requires
        0 <= from,
    ensures
        match find_from(s, p, from) {
            Some(i) => from <= i && occurs_at(s, p, i) && (forall|j: int|
                from <= j < i ==> !occurs_at(s, p, j)),
            None => forall|j: int| from <= j ==> !occurs_at(s, p, j),
        },
    decreases s.len() - from + 1,
{
    if from + p.len() > s.len() {
    } else if occurs_at(s, p, from) {
    } else {
        lemma_find_from(s, p, from + 1);
    }
}

/// Whether `p` stands in `s` at position `i`.
pub fn occurs(s: &[char], p: &[char], i: usize) -> (r: bool)
    ensures
        r == occurs_at(s@, p@, i as int),
{
    let n: usize = s.len();
    if i > n || p.len() > n - i {
        return false;
    }
    for k in 0..p.len()
        invariant
            i + p@.len() <= n == s@.len(),
            forall|j: int| 0 <= j < k ==> s@[i + j] == p@[j],
    {
        if s[i + k] != p[k] {
            assert(s@.subrange(i as int, i + p@.len())[k as int] == s@[i + k]);
            return false;
        }
    }
    assert(s@.subrange(i as int, i + p@.len()) =~= p@);
    true
}

/// The first position at or after `from` where `p` stands in `s`.
pub fn find(s: &[char], p: &[char], from: usize) -> (r: Option<usize>)
    requires
        from <= s@.len(),
    ensures
        match r {
            Some(i) => find_from(s@, p@, from as int) == Some(i as int) && from <= i && i + p@.len()
                <= s@.len() <= usize::MAX,
            None => find_from(s@, p@, from as int) is None,
        },
{
    let mut i: usize = from;
    loop
        invariant
            from <= i <= s@.len(),
            find_from(s@, p@, i as int) == find_from(s@, p@, from as int),
        decreases s@.len() - i,
    {
        if p.len() > s.len() - i {
            return None;
        }
        if occurs(s, p, i) {
            return Some(i);
        }
        assert(p@.len() == 0 ==> s@.subrange(i as int, i as int) =~= p@);
        i += 1;
    }
}

/// Whether `s` begins with `p`.
pub fn starts_with(s: &str, p: &str) -> (r: bool)
    ensures
        r == begins(s@, p@),
{
    occurs(&to_chars(s), &to_chars(p), 0)
}

/// Whether `s` ends with `p`.
pub fn ends_with(s: &str, p: &str) -> (r: bool)
    ensures
        r == ends(s@, p@),
{
    let sc = to_chars(s);
    let pc = to_chars(p);
    if pc.len() > sc.len() {
        return false;
    }
    occurs(&sc, &pc, sc.len() - pc.len())
}

/// Whether `p` stands somewhere in `s`.
pub fn contains(s: &str, p: &str) -> (r: bool)
    ensures
        r == holds_text(s@, p@),
{
    proof {
        lemma_find_from(s@, p@, 0);
    }
    match find(&to_chars(s), &to_chars(p), 0) {
        Some(i) => {
            assert(occurs_at(s@, p@, i as int));
            true
        },
        None => {
            assert forall|i: int| !occurs_at(s@, p@, i) by {};
            false
        },
    }
}

/// What is left of `s` behind the prefix `p`, where `s` begins with it.
pub open spec fn after_prefix(s: Seq<char>, p: Seq<char>) -> Option<Seq<char>> {
    if begins(s, p) {
        Some(s.skip(p.len() as int))
    } else {
        None
    }
}

/// The text that an optional string holds.
pub open spec fn opt_text(s: Option<String>) -> Option<Seq<char>> {
    match s {
        Some(t) => Some(t@),
        None => None,
    }
}

/// What is left of `s` behind the prefix `p`, where `s` begins with it.
pub fn strip_prefix(s: &str, p: &str) -> (r: Option<String>)
    ensures
        opt_text(r) == after_prefix(s@, p@),
{
    let sc = to_chars(s);
    let pc = to_chars(p);
    if occurs(&sc, &pc, 0) {
        let rest = from_chars(&sc, pc.len(), sc.len());
        assert(rest@ == s@.skip(p@.len() as int));
        Some(rest)
    } else {
        None
    }
}

/// `s` without the prefix `p`, however often it stands there.
pub open spec fn unprefixed(s: Seq<char>, p: Seq<char>) -> Seq<char>
    decreases s.len(),
{
    if p.len() > 0 && begins(s, p) {
        unprefixed(s.skip(p.len() as int), p)
    } else {
        s
    }
}

/// `s` without the prefix `p`, however often it stands there.
pub fn strip_prefixes(s: &str, p: &str) -> (r: String)
    ensures
        r@ == unprefixed(s@, p@),
{
    let mut out = s.to_string();
    if p.is_empty() {
        return out;
    }
    loop
        invariant
            p@.len() > 0,
            unprefixed(out@, p@) == unprefixed(s@, p@),
        decreases out@.len(),
    {
        match strip_prefix(&out, p) {
            Some(rest) => {
                out = rest;
            },
            None => {
                return out;
            },
        }
    }
}

// ---------------------------------------------------------------------------
// Trimming
// ---------------------------------------------------------------------------

/// The first position at or after `i` whose character is not in `class`.
pub open spec fn lead(s: Seq<char>, class: Seq<char>, i: int) -> int
    decreases s.len() - i,
{
    if 0 <= i < s.len() && class.contains(s[i]) {
        lead(s, class, i + 1)
    } else {
        i
    }
}

/// The last position down from `j`, not below `lo`, with no character of `class` before it.
pub open spec fn tail(s: Seq<char>, class: Seq<char>, lo: int, j: int) -> int
    decreases j,
{
    if 0 <= lo < j <= s.len() && class.contains(s[j - 1]) {
        tail(s, class, lo, j - 1)
    } else {
        j
    }
}

/// `s` without the characters of `class` at its start.
pub open spec fn trimmed_start(s: Seq<char>, class: Seq<char>) -> Seq<char> {
    s.skip(lead(s, class, 0))
}

/// `s` without the characters of `class` at its end.
pub open spec fn trimmed_end(s: Seq<char>, class: Seq<char>) -> Seq<char> {
    s.take(tail(s, class, 0, s.len() as int))
}

/// `s` without the characters of `class` at either end.
pub open spec fn trimmed_of(s: Seq<char>, class: Seq<char>) -> Seq<char> {
    let i = lead(s, class, 0);
    s.subrange(i, tail(s, class, i, s.len() as int))
}

/// `s` without white space at either end.
pub open spec fn trimmed(s: Seq<char>) -> Seq<char> {
    trimmed_of(s, WHITE@)
}

/// `lead` stays within the text and skips only characters of the class.
pub proof fn lemma_lead(s: Seq<char>, class: Seq<char>, i: int)
    requires
        0 <= i <= s.len(),
    ensures
        i <= lead(s, class, i) <= s.len(),
        forall|k: int| i <= k < lead(s, class, i) ==> class.contains(#[trigger] s[k]),
        lead(s, class, i) < s.len() ==> !class.contains(s[lead(s, class, i)]),
    decreases s.len() - i,
{
    if i < s.len() && class.contains(s[i]) {
        lemma_lead(s, class, i + 1);
    }
}

/// `tail` stays within its bounds and skips only characters of the class.
pub proof fn lemma_tail(s: Seq<char>, class: Seq<char>, lo: int, j: int)
    requires
        0 <= lo <= j <= s.len(),
    ensures
        lo <= tail(s, class, lo, j) <= j,
        forall|k: int| tail(s, class, lo, j) <= k < j ==> class.contains(#[trigger] s[k]),
        tail(s, class, lo, j) > lo ==> !class.contains(s[tail(s, class, lo, j) - 1]),
    decreases j,
{
    if lo < j && class.contains(s[j - 1]) {
        lemma_tail(s, class, lo, j - 1);
    }
}

fn lead_of(s: &[char], class: &[char]) -> (r: usize)
    ensures
        r == lead(s@, class@, 0),
        r <= s@.len(),
{
    let mut i: usize = 0;
    while i < s.len() && is_one_of(class, s[i])
        invariant
            i <= s@.len(),
            lead(s@, class@, i as int) == lead(s@, class@, 0),
        decreases s@.len() - i,
    {
        i += 1;
    }
    i
}

fn tail_of(s: &[char], class: &[char], lo: usize) -> (r: usize)
    requires
        lo <= s@.len(),
    ensures
        r == tail(s@, class@, lo as int, s@.len() as int),
        lo <= r <= s@.len(),
{
    let mut j: usize = s.len();
    while lo < j && is_one_of(class, s[j - 1])
        invariant
            lo <= j <= s@.len(),
            tail(s@, class@, lo as int, j as int) == tail(s@, class@, lo as int, s@.len() as int),
        decreases j,
    {
        j -= 1;
    }
    j
}

/// `s` without the characters of `class` at its start.
pub fn trim_start_of(s: &str, class: &[char]) -> (r: String)
    ensures
        r@ == trimmed_start(s@, class@),
{
    let sc = to_chars(s);
    let i = lead_of(&sc, class);
    from_chars(&sc, i, sc.len())
}

/// `s` without the characters of `class` at its end.
pub fn trim_end_of(s: &str, class: &[char]) -> (r: String)
    ensures
        r@ == trimmed_end(s@, class@),
{
    let sc = to_chars(s);
    let j = tail_of(&sc, class, 0);
    from_chars(&sc, 0, j)
}

/// `s` without the characters of `class` at either end.
pub fn trim_of(s: &str, class: &[char]) -> (r: String)
    ensures
        r@ == trimmed_of(s@, class@),
{
    let sc = to_chars(s);
    let i = lead_of(&sc, class);
    let j = tail_of(&sc, class, i);
    from_chars(&sc, i, j)
}

/// `s` without white space at either end.
pub fn trim(s: &str) -> (r: String)
    ensures
        r@ == trimmed(s@),
{
    trim_of(s, &WHITE)
}

// ---------------------------------------------------------------------------
// Splitting
// ---------------------------------------------------------------------------

/// The pieces of `s` from `start` on, between the places where `sep` stands.
pub open spec fn pieces(s: Seq<char>, sep: Seq<char>, start: int) -> Seq<Seq<char>>
    decreases s.len() - start,
{
    match find_from(s, sep, start) {
        Some(i) => if sep.len() > 0 && 0 <= start <= i && i + sep.len() <= s.len() {
            seq![s.subrange(start, i)] + pieces(s, sep, i + sep.len())
        } else {
            seq![s.skip(start)]
        },
        None => seq![s.skip(start)],
    }
}

/// The pieces of `s` between the places where `sep` stands.
pub fn split(s: &str, sep: &str) -> (r: Vec<String>)
    requires
        sep@.len() > 0,
    ensures
        texts(r@) == pieces(s@, sep@, 0),
{
    let sc = to_chars(s);
    let pc = to_chars(sep);
    let mut out: Vec<String> = Vec::new();
    let mut start: usize = 0;
    loop
        invariant
            sc@ == s@,
            pc@ == sep@,
            sep@.len() > 0,
            start <= s@.len(),
            texts(out@) + pieces(s@, sep@, start as int) == pieces(s@, sep@, 0),
        decreases s@.len() - start,
    {
        let ghost before = out@;
        match find(&sc, &pc, start) {
            Some(i) => {
                out.push(from_chars(&sc, start, i));
                assert(texts(out@) =~= texts(before).push(s@.subrange(start as int, i as int)));
                assert(texts(out@) + pieces(s@, sep@, i + pc@.len()) =~= texts(before) + pieces(
                    s@,
                    sep@,
                    start as int,
                ));
                start = i + pc.len();
            },
            None => {
                out.push(from_chars(&sc, start, sc.len()));
                assert(texts(out@) =~= texts(before) + seq![s@.skip(start as int)]);
                return out;
            },
        }
    }
}

/// The parts of `s` before and behind the first place where `sep` stands.
pub open spec fn cut(s: Seq<char>, sep: Seq<char>) -> Option<(Seq<char>, Seq<char>)> {
    match find_from(s, sep, 0) {
        Some(i) => Some((s.take(i), s.skip(i + sep.len()))),
        None => None,
    }
}

/// The two texts that an optional pair of strings holds.
pub open spec fn opt_pair(p: Option<(String, String)>) -> Option<(Seq<char>, Seq<char>)> {
    match p {
        Some(t) => Some((t.0@, t.1@)),
        None => None,
    }
}

/// The parts of `s` before and behind the first place where `sep` stands.
pub fn split_once(s: &str, sep: &str) -> (r: Option<(String, String)>)
    ensures
        opt_pair(r) == cut(s@, sep@),
{
    let sc = to_chars(s);
    let pc = to_chars(sep);
    match find(&sc, &pc, 0) {
        Some(i) => {
            let a = from_chars(&sc, 0, i);
            let b = from_chars(&sc, i + pc.len(), sc.len());
            assert(a@ == s@.take(i as int));
            assert(b@ == s@.skip(i + sep@.len()));
            Some((a, b))
        },
        None => None,
    }
}

/// `s` without one carriage return at its end.
pub open spec fn without_return(s: Seq<char>) -> Seq<char> {
    if s.len() > 0 && s.last() == '\r' {
        s.drop_last()
    } else {
        s
    }
}

/// The lines of `s` from `start` on. A line ends with a line feed, or with a
/// carriage return and a line feed; the last line may go without.
pub open spec fn lines_from(s: Seq<char>, start: int) -> Seq<Seq<char>>
    decreases s.len() - start,
{
    if start < 0 || start >= s.len() {
        Seq::empty()
    } else {
        match find_from(s, seq!['\n'], start) {
            Some(i) => if start <= i < s.len() {
                seq![without_return(s.subrange(start, i))] + lines_from(s, i + 1)
            } else {
                seq![s.skip(start)]
            },
            None => seq![s.skip(start)],
        }
    }
}

/// The lines of `s`.
pub open spec fn lines_of(s: Seq<char>) -> Seq<Seq<char>> {
    lines_from(s, 0)
}

/// The lines of `s`.
pub fn lines(s: &str) -> (r: Vec<String>)
    ensures
        texts(r@) == lines_of(s@),
{
    let sc = to_chars(s);
    let feed: Vec<char> = vec!['\n'];
    let mut out: Vec<String> = Vec::new();
    let mut start: usize = 0;
    assert(feed@ =~= seq!['\n']);
    while start < sc.len()
        invariant
            sc@ == s@,
            feed@ == seq!['\n'],
            start <= s@.len(),
            texts(out@) + lines_from(s@, start as int) == lines_from(s@, 0),
        decreases s@.len() - start,
    {
        let ghost before = out@;
        match find(&sc, &feed, start) {
            Some(i) => {
                let end: usize = if start < i && sc[i - 1] == '\r' {
                    i - 1
                } else {
                    i
                };
                out.push(from_chars(&sc, start, end));
                assert(s@.subrange(start as int, end as int) =~= without_return(
                    s@.subrange(start as int, i as int),
                ));
                assert(texts(out@) =~= texts(before).push(s@.subrange(start as int, end as int)));
                assert(texts(out@) + lines_from(s@, i + 1) =~= texts(before) + lines_from(
                    s@,
                    start as int,
                ));
                start = i + 1;
            },
            None => {
                out.push(from_chars(&sc, start, sc.len()));
                assert(texts(out@) =~= texts(before) + seq![s@.skip(start as int)]);
                return out;
            },
        }
    }
    assert(texts(out@) =~= lines_from(s@, 0));
    out
}

/// The first position at or after `i` whose character is in `class`.
pub open spec fn run_end(s: Seq<char>, class: Seq<char>, i: int) -> int
    decreases s.len() - i,
{
    if 0 <= i < s.len() && !class.contains(s[i]) {
        run_end(s, class, i + 1)
    } else {
        i
    }
}

/// The words of `s` from `start` on: the runs without white space.
pub open spec fn words_from(s: Seq<char>, start: int) -> Seq<Seq<char>>
    decreases s.len() - start,
{
    let i = lead(s, WHITE@, start);
    let j = run_end(s, WHITE@, i);
    if 0 <= start <= i < j <= s.len() {
        seq![s.subrange(i, j)] + words_from(s, j)
    } else {
        Seq::empty()
    }
}

/// The words of `s`: the runs without white space.
pub open spec fn words_of(s: Seq<char>) -> Seq<Seq<char>> {
    words_from(s, 0)
}

/// The words of `s`: the runs without white space.
pub fn words(s: &str) -> (r: Vec<String>)
    ensures
        texts(r@) == words_of(s@),
{
    let sc = to_chars(s);
    let mut out: Vec<String> = Vec::new();
    let mut start: usize = 0;
    loop
        invariant
            sc@ == s@,
            start <= s@.len(),
            texts(out@) + words_from(s@, start as int) == words_from(s@, 0),
        decreases s@.len() - start,
    {
        let ghost before = out@;
        let mut i: usize = start;
        while i < sc.len() && is_one_of(&WHITE, sc[i])
            invariant
                sc@ == s@,
                start <= i <= s@.len(),
                lead(s@, WHITE@, i as int) == lead(s@, WHITE@, start as int),
            decreases s@.len() - i,
        {
            i += 1;
        }
        let mut j: usize = i;
        while j < sc.len() && !is_one_of(&WHITE, sc[j])
            invariant
                sc@ == s@,
                i <= j <= s@.len(),
                run_end(s@, WHITE@, j as int) == run_end(s@, WHITE@, i as int),
            decreases s@.len() - j,
        {
            j += 1;
        }
        if i == j {
            assert(texts(out@) =~= words_from(s@, 0));
            return out;
        }
        out.push(from_chars(&sc, i, j));
        assert(texts(out@) =~= texts(before).push(s@.subrange(i as int, j as int)));
        assert(texts(out@) + words_from(s@, j as int) =~= texts(before) + words_from(
            s@,
            start as int,
        ));
        start = j;
    }
}

// ---------------------------------------------------------------------------
// Replacing and joining
// ---------------------------------------------------------------------------

/// `s` from `start` on, with `to` in place of each `from`, found from the left.
pub open spec fn replaced_from(s: Seq<char>, from: Seq<char>, to: Seq<char>, start: int) -> Seq<char>
    decreases s.len() - start,
{
    match find_from(s, from, start) {
        Some(i) => if from.len() > 0 && 0 <= start <= i && i + from.len() <= s.len() {
            s.subrange(start, i) + to + replaced_from(s, from, to, i + from.len())
        } else {
            s.skip(start)
        },
        None => s.skip(start),
    }
}

/// `s` with `to` in place of each `from`, found from the left.
pub open spec fn replaced(s: Seq<char>, from: Seq<char>, to: Seq<char>) -> Seq<char> {
    replaced_from(s, from, to, 0)
}

/// `s` with `to` in place of each `from`, found from the left.
pub fn replace(s: &str, from: &str, to: &str) -> (r: String)
    requires
        from@.len() > 0,
    ensures
        r@ == replaced(s@, from@, to@),
{
    let sc = to_chars(s);
    let fc = to_chars(from);
    let mut out = String::new();
    let mut start: usize = 0;
    loop
        invariant
            sc@ == s@,
            fc@ == from@,
            from@.len() > 0,
            start <= s@.len(),
            out@ + replaced_from(s@, from@, to@, start as int) == replaced_from(s@, from@, to@, 0),
        decreases s@.len() - start,
    {
        let ghost before = out@;
        match find(&sc, &fc, start) {
            Some(i) => {
                push_text(&mut out, &from_chars(&sc, start, i));
                push_text(&mut out, to);
                let ghost rest = replaced_from(s@, from@, to@, i + fc@.len());
                assert(out@ + rest =~= before + (s@.subrange(start as int, i as int) + to@ + rest));
                start = i + fc.len();
            },
            None => {
                push_text(&mut out, &from_chars(&sc, start, sc.len()));
                assert(out@ =~= before + s@.skip(start as int));
                return out;
            },
        }
    }
}

/// `s` with `to` in place of the first `from`.
pub open spec fn replaced_first(s: Seq<char>, from: Seq<char>, to: Seq<char>) -> Seq<char> {
    match find_from(s, from, 0) {
        Some(i) => s.take(i) + to + s.skip(i + from.len()),
        None => s,
    }
}

/// `s` with `to` in place of the first `from`.
pub fn replace_first(s: &str, from: &str, to: &str) -> (r: String)
    ensures
        r@ == replaced_first(s@, from@, to@),
{
    match split_once(s, from) {
        Some(parts) => {
            let mut out = parts.0;
            push_text(&mut out, to);
            push_text(&mut out, &parts.1);
            out
        },
        None => s.to_string(),
    }
}

/// The parts one behind the other, with `sep` between any two.
pub open spec fn joined(parts: Seq<Seq<char>>, sep: Seq<char>) -> Seq<char>
    decreases parts.len(),
{
    if parts.len() == 0 {
        Seq::empty()
    } else if parts.len() == 1 {
        parts[0]
    } else {
        joined(parts.drop_last(), sep) + sep + parts.last()
    }
}

/// The parts one behind the other, with `sep` between any two.
pub fn join(parts: &[String], sep: &str) -> (r: String)
    ensures
        r@ == joined(texts(parts@), sep@),
{
    let mut out = String::new();
    assert(joined(texts(parts@).take(0), sep@) =~= Seq::<char>::empty());
    for i in 0..parts.len()
        invariant
            out@ == joined(texts(parts@).take(i as int), sep@),
    {
        if i > 0 {
            push_text(&mut out, sep);
        }
        push_text(&mut out, &parts[i]);
        assert(texts(parts@).take(i + 1).drop_last() =~= texts(parts@).take(i as int));
        assert(texts(parts@).take(i + 1).last() == parts@[i as int]@);
        if i == 0 {
            assert(out@ =~= parts@[0]@);
        }
    }
    assert(texts(parts@).take(parts@.len() as int) =~= texts(parts@));
    out
}

/// The characters of `s` that are in `class`.
pub open spec fn kept(s: Seq<char>, class: Seq<char>) -> Seq<char>
    decreases s.len(),
{
    if s.len() == 0 {
        Seq::empty()
    } else if class.contains(s.last()) {
        kept(s.drop_last(), class).push(s.last())
    } else {
        kept(s.drop_last(), class)
    }
}

/// The characters of `s` that are in `class`.
pub fn keep(s: &str, class: &[char]) -> (r: String)
    ensures
        r@ == kept(s@, class@),
{
    let sc = to_chars(s);
    let mut out = String::new();
    for i in 0..sc.len()
        invariant
            sc@ == s@,
            out@ == kept(s@.take(i as int), class@),
    {
        assert(s@.take(i + 1).drop_last() =~= s@.take(i as int));
        if is_one_of(class, sc[i]) {
            out.push(sc[i]);
        }
    }
    assert(s@.take(s@.len() as int) =~= s@);
    out
}

/// The number of bytes that a text takes.
pub open spec fn byte_len(s: Seq<char>) -> nat {
    vstd::utf8::encode_utf8(s).len()
}

/// The number of bytes that a text takes.
pub fn bytes_in(s: &str) -> (r: usize)
    ensures
        r == byte_len(s@),
{
    s.as_bytes().len()
}

// ---------------------------------------------------------------------------
// Laws
// ---------------------------------------------------------------------------

/// Trimming a second time changes nothing.
pub proof fn trimming_once_is_enough(s: Seq<char>, class: Seq<char>)
    ensures
        trimmed_of(trimmed_of(s, class), class) == trimmed_of(s, class),
{
    let i = lead(s, class, 0);
    lemma_lead(s, class, 0);
    let j = tail(s, class, i, s.len() as int);
    lemma_tail(s, class, i, s.len() as int);
    let t = s.subrange(i, j);
    if t.len() > 0 {
        assert(t[0] == s[i]);
        assert(t[t.len() - 1] == s[j - 1]);
        assert(t.subrange(0, t.len() as int) =~= t);
    } else {
        assert(t.subrange(0, 0) =~= t);
    }
}

/// What is left by trimming begins and ends with no character of the class.
pub proof fn trimmed_ends_are_bare(s: Seq<char>, class: Seq<char>)
    ensures
        trimmed_of(s, class).len() > 0 ==> !class.contains(trimmed_of(s, class)[0])
            && !class.contains(trimmed_of(s, class).last()),
        forall|c: char| #[trigger] trimmed_of(s, class).contains(c) ==> s.contains(c),
{
    let i = lead(s, class, 0);
    lemma_lead(s, class, 0);
    let j = tail(s, class, i, s.len() as int);
    lemma_tail(s, class, i, s.len() as int);
    let t = s.subrange(i, j);
    assert forall|c: char| #[trigger] t.contains(c) implies s.contains(c) by {
        let k = t.index_of(c);
        assert(s[i + k] == c);
    }
}

proof fn lemma_find_shift(a: Seq<char>, t: Seq<char>, p: Seq<char>, k: int)
    requires
        0 <= k,
    ensures
        find_from(a + t, p, a.len() + k) == (match find_from(t, p, k) {
            Some(i) => Some(a.len() + i),
            None => None::<int>,
        }),
    decreases t.len() - k + 1,
{
    let s = a + t;
    let n = a.len() as int;
    if k + p.len() <= t.len() {
        assert(s.subrange(n + k, n + k + p.len()) =~= t.subrange(k, k + p.len()));
        assert(occurs_at(s, p, n + k) == occurs_at(t, p, k));
        if !occurs_at(t, p, k) {
            lemma_find_shift(a, t, p, k + 1);
        }
    }
}

proof fn lemma_lines_shift(a: Seq<char>, t: Seq<char>, k: int)
    requires
        0 <= k,
    ensures
        lines_from(a + t, a.len() + k) == lines_from(t, k),
    decreases t.len() - k,
{
    let s = a + t;
    let n = a.len() as int;
    if k < t.len() {
        lemma_find_shift(a, t, seq!['\n'], k);
        lemma_find_from(t, seq!['\n'], k);
        match find_from(t, seq!['\n'], k) {
            Some(i) => {
                assert(s.subrange(n + k, n + i) =~= t.subrange(k, i));
                lemma_lines_shift(a, t, i + 1);
            },
            None => {
                assert(s.skip(n + k) =~= t.skip(k));
            },
        }
    }
}

proof fn lemma_joined_first(parts: Seq<Seq<char>>, sep: Seq<char>)
    requires
        parts.len() >= 2,
    ensures
        joined(parts, sep) == parts[0] + sep + joined(parts.skip(1), sep),
    decreases parts.len(),
{
    let less = parts.drop_last();
    if parts.len() == 2 {
        assert(joined(less, sep) == parts[0]);
        assert(joined(parts.skip(1), sep) == parts[1]);
    } else {
        lemma_joined_first(less, sep);
        assert(less.skip(1) =~= parts.skip(1).drop_last());
        assert(parts.skip(1).last() == parts.last());
        let mid = joined(less.skip(1), sep);
        assert(parts[0] + sep + mid + sep + parts.last() =~= parts[0] + sep + (mid + sep
            + parts.last()));
    }
}

proof fn lemma_no_feed(s: Seq<char>, from: int)
    requires
        0 <= from,
        forall|k: int| from <= k < s.len() ==> s[k] != '\n',
    ensures
        find_from(s, seq!['\n'], from) is None,
{
    lemma_find_from(s, seq!['\n'], from);
    match find_from(s, seq!['\n'], from) {
        Some(i) => {
            assert(s.subrange(i, i + 1)[0] == s[i]);
        },
        None => {},
    }
}

/// `s` can stand as a line: it is not empty, holds no line feed and does not
/// end with a carriage return.
pub open spec fn is_line(s: Seq<char>) -> bool {
    s.len() > 0 && !s.contains('\n') && s.last() != '\r'
}

proof fn lemma_first_line(first: Seq<char>, t: Seq<char>)
    requires
        is_line(first),
    ensures
        lines_of(first + seq!['\n'] + t) == seq![first] + lines_of(t),
{
    let feed = seq!['\n'];
    let head = first + feed;
    let s = head + t;
    let n = first.len() as int;
    assert(s.subrange(n, n + 1) =~= feed);
    assert(occurs_at(s, feed, n));
    lemma_find_from(s, feed, 0);
    match find_from(s, feed, 0) {
        Some(i) => {
            assert(s.subrange(i, i + 1)[0] == s[i]);
            if i < n {
                assert(s[i] == first[i]);
                assert(first.contains(first[i]));
            }
        },
        None => {},
    }
    assert(find_from(s, feed, 0) == Some(n));
    assert(s.subrange(0, n) =~= first);
    lemma_lines_shift(head, t, 0);
}

proof fn lemma_only_line(s: Seq<char>)
    requires
        is_line(s),
    ensures
        lines_of(s) == seq![s],
{
    assert forall|k: int| 0 <= k < s.len() implies s[k] != '\n' by {
        assert(s.contains(s[k]));
    }
    lemma_no_feed(s, 0);
    assert(s.skip(0) =~= s);
}

/// Lines that are joined by line feeds come back one by one.
pub proof fn joined_lines_come_back(parts: Seq<Seq<char>>)
    requires
        forall|i: int| 0 <= i < parts.len() ==> is_line(#[trigger] parts[i]),
    ensures
        lines_of(joined(parts, "\n"@)) == parts,
    decreases parts.len(),
{
    reveal_strlit("\n");
    let feed = "\n"@;
    assert(feed =~= seq!['\n']);
    if parts.len() == 0 {
        assert(lines_of(joined(parts, feed)) =~= parts);
    } else if parts.len() == 1 {
        assert(is_line(parts[0]));
        lemma_only_line(parts[0]);
        assert(seq![parts[0]] =~= parts);
    } else {
        let rest = parts.skip(1);
        assert forall|i: int| 0 <= i < rest.len() implies is_line(#[trigger] rest[i]) by {
            assert(rest[i] == parts[i + 1]);
        }
        joined_lines_come_back(rest);
        lemma_joined_first(parts, feed);
        assert(is_line(parts[0]));
        lemma_first_line(parts[0], joined(rest, feed));
        assert(seq![parts[0]] + rest =~= parts);
    }
}

/// No line of a text holds a line feed.
pub proof fn lines_hold_no_feed(s: Seq<char>, i: int)
    requires
        0 <= i < lines_of(s).len(),
    ensures
        !lines_of(s)[i].contains('\n'),
{
    lemma_lines_hold_no_feed(s, 0, i);
}

proof fn lemma_lines_hold_no_feed(s: Seq<char>, start: int, i: int)
    requires
        0 <= start,
        0 <= i < lines_from(s, start).len(),
    ensures
        !lines_from(s, start)[i].contains('\n'),
    decreases s.len() - start,
{
    let feed = seq!['\n'];
    lemma_find_from(s, feed, start);
    let line = lines_from(s, start)[i];
    match find_from(s, feed, start) {
        Some(e) => {
            if i == 0 {
                let whole = s.subrange(start, e);
                if line.contains('\n') {
                    let k = line.index_of('\n');
                    assert(whole[k] == '\n');
                    assert(s[start + k] == '\n');
                    assert(s.subrange(start + k, start + k + 1) =~= feed);
                    assert(occurs_at(s, feed, start + k));
                }
            } else {
                lemma_lines_hold_no_feed(s, e + 1, i - 1);
            }
        },
        None => {
            if line.contains('\n') {
                let k = line.index_of('\n');
                assert(s[start + k] == '\n');
                assert(s.subrange(start + k, start + k + 1) =~= feed);
                assert(occurs_at(s, feed, start + k));
            }
        },
    }
}

/// `s` with `b` in place of each `a`.
pub open spec fn with_char(s: Seq<char>, a: char, b: char) -> Seq<char> {
    Seq::new(
        s.len(),
        |i: int|
            if s[i] == a {
                b
            } else {
                s[i]
            },
    )
}

proof fn lemma_replace_char(s: Seq<char>, a: char, b: char, start: int)
    requires
        0 <= start <= s.len(),
    ensures
        replaced_from(s, seq![a], seq![b], start) == with_char(s.skip(start), a, b),
    decreases s.len() - start,
{
    let from = seq![a];
    lemma_find_from(s, from, start);
    assert forall|k: int| 0 <= k < s.len() && s[k] == a implies #[trigger] occurs_at(s, from, k) by {
        assert(s.subrange(k, k + 1) =~= from);
    }
    match find_from(s, from, start) {
        Some(i) => {
            assert(s.subrange(i, i + 1)[0] == a);
            lemma_replace_char(s, a, b, i + 1);
            assert forall|k: int| start <= k < i implies s[k] != a by {
                if s[k] == a {
                    assert(occurs_at(s, from, k));
                }
            }
            assert(s.subrange(start, i) + seq![b] + with_char(s.skip(i + 1), a, b) =~= with_char(
                s.skip(start),
                a,
                b,
            ));
        },
        None => {
            assert forall|k: int| start <= k < s.len() implies s[k] != a by {
                if s[k] == a {
                    assert(occurs_at(s, from, k));
                }
            }
            assert(with_char(s.skip(start), a, b) =~= s.skip(start));
        },
    }
}

/// Replacing one character by another changes each place where it stands, and
/// no other.
pub proof fn replacing_a_character(s: Seq<char>, a: char, b: char)
    ensures
        replaced(s, seq![a], seq![b]) == with_char(s, a, b),
{
    lemma_replace_char(s, a, b, 0);
    assert(s.skip(0) =~= s);
}

/// Replacing a character that is not there changes nothing.
pub proof fn replacing_nothing(s: Seq<char>, a: char, to: Seq<char>)
    requires
        !s.contains(a),
    ensures
        replaced(s, seq![a], to) == s,
{
    lemma_find_from(s, seq![a], 0);
    match find_from(s, seq![a], 0) {
        Some(i) => {
            assert(s.subrange(i, i + 1)[0] == s[i]);
            assert(s.contains(s[i]));
        },
        None => {
            assert(s.skip(0) =~= s);
        },
    }
}

/// A text that begins and ends with no character of the class is what trimming
/// leaves of it.
pub proof fn bare_text_stays(s: Seq<char>, class: Seq<char>)
    requires
        s.len() > 0 ==> !class.contains(s[0]) && !class.contains(s.last()),
    ensures
        trimmed_of(s, class) == s,
{
    if s.len() > 0 {
        assert(s.subrange(0, s.len() as int) =~= s);
    } else {
        assert(s.subrange(0, 0) =~= s);
    }
}

proof fn lemma_replaced_chars(s: Seq<char>, a: char, to: Seq<char>, start: int, c: char)
    requires
        0 <= start <= s.len(),
        replaced_from(s, seq![a], to, start).contains(c),
    ensures
        to.contains(c) || (c != a && s.contains(c)),
    decreases s.len() - start,
{
    let from = seq![a];
    lemma_find_from(s, from, start);
    let out = replaced_from(s, from, to, start);
    let k = out.index_of(c);
    match find_from(s, from, start) {
        Some(i) => {
            let head = s.subrange(start, i);
            let rest = replaced_from(s, from, to, i + 1);
            if k < head.len() {
                assert(s[start + k] == c);
                if c == a {
                    assert(s.subrange(start + k, start + k + 1) =~= from);
                    assert(occurs_at(s, from, start + k));
                }
            } else if k < head.len() + to.len() {
                assert(to[k - head.len()] == c);
            } else {
                assert(rest[k - head.len() - to.len()] == c);
                lemma_replaced_chars(s, a, to, i + 1, c);
            }
        },
        None => {
            assert(s[start + k] == c);
            if c == a {
                assert(s.subrange(start + k, start + k + 1) =~= from);
                assert(occurs_at(s, from, start + k));
            }
        },
    }
}

/// After a character is replaced, the text holds it only where what replaced
/// it does, and holds nothing else that is new.
pub proof fn replaced_character_is_gone(s: Seq<char>, a: char, to: Seq<char>, c: char)
    requires
        replaced(s, seq![a], to).contains(c),
    ensures
        to.contains(c) || (c != a && s.contains(c)),
{
    lemma_replaced_chars(s, a, to, 0, c);
}

proof fn lemma_pieces_shift(a: Seq<char>, t: Seq<char>, sep: Seq<char>, k: int)
    requires
        0 <= k <= t.len(),
        sep.len() > 0,
    ensures
        pieces(a + t, sep, a.len() + k) == pieces(t, sep, k),
    decreases t.len() - k,
{
    let s = a + t;
    let n = a.len() as int;
    lemma_find_shift(a, t, sep, k);
    lemma_find_from(t, sep, k);
    match find_from(t, sep, k) {
        Some(i) => {
            assert(s.subrange(n + k, n + i) =~= t.subrange(k, i));
            lemma_pieces_shift(a, t, sep, i + sep.len());
        },
        None => {
            assert(s.skip(n + k) =~= t.skip(k));
        },
    }
}

proof fn lemma_find_char(s: Seq<char>, c: char, n: int, from: int)
    requires
        0 <= from <= n < s.len(),
        s[n] == c,
        forall|k: int| from <= k < n ==> s[k] != c,
    ensures
        find_from(s, seq![c], from) == Some(n),
    decreases n - from,
{
    let here = s.subrange(from, from + 1);
    assert(here[0] == s[from]);
    if from == n {
        assert(here =~= seq![c]);
    } else {
        assert(seq![c][0] == c);
        lemma_find_char(s, c, n, from + 1);
    }
}

proof fn lemma_find_first(first: Seq<char>, c: char, t: Seq<char>)
    requires
        !first.contains(c),
    ensures
        find_from(first + seq![c] + t, seq![c], 0) == Some(first.len() as int),
{
    let s = first + seq![c] + t;
    let n = first.len() as int;
    assert forall|k: int| 0 <= k < n implies s[k] != c by {
        assert(s[k] == first[k]);
    }
    lemma_find_char(s, c, n, 0);
}

proof fn lemma_first_piece(first: Seq<char>, c: char, t: Seq<char>)
    requires
        !first.contains(c),
    ensures
        pieces(first + seq![c] + t, seq![c], 0) == seq![first] + pieces(t, seq![c], 0),
{
    let sep = seq![c];
    let head = first + sep;
    let s = head + t;
    let n = first.len() as int;
    lemma_find_first(first, c, t);
    lemma_pieces_shift(head, t, sep, 0);
    assert(pieces(s, sep, n + 1) == pieces(t, sep, 0));
    assert(s.subrange(0, n) =~= first);
    assert(pieces(s, sep, 0) == seq![s.subrange(0, n)] + pieces(s, sep, n + 1));
}

/// Parts that are joined by a character that none of them holds come back one
/// by one.
pub proof fn joined_parts_come_back(parts: Seq<Seq<char>>, c: char)
    requires
        parts.len() > 0,
        forall|i: int| 0 <= i < parts.len() ==> !(#[trigger] parts[i]).contains(c),
    ensures
        pieces(joined(parts, seq![c]), seq![c], 0) == parts,
    decreases parts.len(),
{
    let sep = seq![c];
    assert(!parts[0].contains(c));
    if parts.len() == 1 {
        let s = parts[0];
        lemma_find_from(s, sep, 0);
        match find_from(s, sep, 0) {
            Some(i) => {
                assert(s.subrange(i, i + 1)[0] == s[i]);
                assert(s.contains(s[i]));
            },
            None => {},
        }
        assert(s.skip(0) =~= s);
        assert(seq![s] =~= parts);
    } else {
        let rest = parts.skip(1);
        assert forall|i: int| 0 <= i < rest.len() implies !(#[trigger] rest[i]).contains(c) by {
            assert(rest[i] == parts[i + 1]);
        }
        joined_parts_come_back(rest, c);
        lemma_joined_first(parts, sep);
        lemma_first_piece(parts[0], c, joined(rest, sep));
        assert(seq![parts[0]] + rest =~= parts);
    }
}

proof fn lemma_lines_behind(a: Seq<char>, b: Seq<char>, k: int)
    requires
        0 <= k <= a.len(),
        a.len() > 0 ==> a.last() == '\n',
    ensures
        lines_from(a + b, k) == lines_from(a, k) + lines_of(b),
    decreases a.len() - k,
{
    let s = a + b;
    let n = a.len() as int;
    let feed = seq!['\n'];
    if k == n {
        lemma_lines_shift(a, b, 0);
        assert(lines_from(a, k) + lines_of(b) =~= lines_of(b));
    } else {
        assert(a.subrange(n - 1, n) =~= feed);
        assert(occurs_at(a, feed, n - 1));
        lemma_find_from(a, feed, k);
        let i = find_from(a, feed, k)->0;
        assert forall|j: int| k <= j < n implies occurs_at(s, feed, j) == occurs_at(a, feed, j) by {
            assert(s.subrange(j, j + 1) =~= a.subrange(j, j + 1));
        }
        lemma_find_from(s, feed, k);
        assert(find_from(s, feed, k) == Some(i));
        assert(s.subrange(k, i) =~= a.subrange(k, i));
        lemma_lines_behind(a, b, i + 1);
        let first = seq![without_return(a.subrange(k, i))];
        assert(first + (lines_from(a, i + 1) + lines_of(b)) =~= (first + lines_from(a, i + 1))
            + lines_of(b));
    }
}

/// The lines of a text behind whole lines are the lines of the one and then of
/// the other.
pub proof fn lines_follow_lines(a: Seq<char>, b: Seq<char>)
    requires
        a.len() > 0 ==> a.last() == '\n',
    ensures
        lines_of(a + b) == lines_of(a) + lines_of(b),
{
    lemma_lines_behind(a, b, 0);
}

proof fn lemma_lead_shift(a: Seq<char>, t: Seq<char>, class: Seq<char>, k: int)
    requires
        0 <= k <= t.len(),
    ensures
        lead(a + t, class, a.len() + k) == a.len() + lead(t, class, k),
        run_end(a + t, class, a.len() + k) == a.len() + run_end(t, class, k),
    decreases t.len() - k,
{
    if k < t.len() {
        assert((a + t)[a.len() + k] == t[k]);
        lemma_lead_shift(a, t, class, k + 1);
    }
}

proof fn lemma_lead_prefix(a: Seq<char>, t: Seq<char>, class: Seq<char>, k: int)
    requires
        0 <= k <= a.len(),
        t.len() > 0,
        class.contains(t[0]),
    ensures
        lead(a, class, k) < a.len() ==> lead(a + t, class, k) == lead(a, class, k),
        lead(a, class, k) >= a.len() ==> lead(a + t, class, k) == lead(
            a + t,
            class,
            a.len() as int,
        ),
        run_end(a + t, class, k) == run_end(a, class, k),
        k <= run_end(a, class, k) <= a.len(),
    decreases a.len() - k,
{
    if k < a.len() {
        assert((a + t)[k] == a[k]);
        lemma_lead_prefix(a, t, class, k + 1);
    } else {
        assert((a + t)[k] == t[0]);
    }
}

proof fn lemma_words_shift(a: Seq<char>, t: Seq<char>, k: int)
    requires
        0 <= k <= t.len(),
    ensures
        words_from(a + t, a.len() + k) == words_from(t, k),
    decreases t.len() - k,
{
    let n = a.len() as int;
    let i = lead(t, WHITE@, k);
    let j = run_end(t, WHITE@, i);
    lemma_lead(t, WHITE@, k);
    lemma_lead_shift(a, t, WHITE@, k);
    lemma_lead_shift(a, t, WHITE@, i);
    if i < j <= t.len() {
        assert((a + t).subrange(n + i, n + j) =~= t.subrange(i, j));
        lemma_words_shift(a, t, j);
    }
}

proof fn lemma_words_behind(a: Seq<char>, w: char, b: Seq<char>, k: int)
    requires
        0 <= k <= a.len(),
        WHITE@.contains(w),
    ensures
        words_from(a + (seq![w] + b), k) == words_from(a, k) + words_of(b),
    decreases a.len() - k,
{
    let t = seq![w] + b;
    let s = a + t;
    let n = a.len() as int;
    let i = lead(a, WHITE@, k);
    lemma_lead(a, WHITE@, k);
    lemma_lead_prefix(a, t, WHITE@, k);
    if i < n {
        lemma_lead_prefix(a, t, WHITE@, i);
        let j = run_end(a, WHITE@, i);
        lemma_lead_prefix(a, t, WHITE@, i + 1);
        assert(s.subrange(i, j) =~= a.subrange(i, j));
        lemma_words_behind(a, w, b, j);
        let first = seq![a.subrange(i, j)];
        assert(first + (words_from(a, j) + words_of(b)) =~= (first + words_from(a, j)) + words_of(
            b,
        ));
    } else {
        assert(s =~= (a + seq![w]) + b);
        lemma_words_shift(a + seq![w], b, 0);
        assert(words_from(s, n + 1) == words_of(b));
        assert(s[n] == w);
        assert(lead(s, WHITE@, n) == lead(s, WHITE@, n + 1));
        lemma_lead(s, WHITE@, n + 1);
        assert(words_from(s, k) == words_from(s, n + 1));
        assert(words_from(a, k) + words_of(b) =~= words_of(b));
    }
}

/// The words of two texts with white space between are the words of the one and
/// then of the other.
pub proof fn words_follow_words(a: Seq<char>, w: char, b: Seq<char>)
    requires
        WHITE@.contains(w),
    ensures
        words_of(a + seq![w] + b) == words_of(a) + words_of(b),
{
    lemma_words_behind(a, w, b, 0);
    assert(a + seq![w] + b =~= a + (seq![w] + b));
}

} // verus!
