//! Character-level helpers: the parts of `std` string handling that the
//! query translator needs, stated over `Seq<char>`.

use vstd::prelude::*;
use vstd::std_specs::iter::IteratorSpec;

verus! {

/// Unicode `White_Space` property (PropList.txt), the set of characters for
/// which `char::is_whitespace` holds.
pub open spec fn unicode_white_space(c: char) -> bool {
    let v = c as u32;
    ||| (0x09 <= v && v <= 0x0d)
    ||| v == 0x20
    ||| v == 0x85
    ||| v == 0xa0
    ||| v == 0x1680
    ||| (0x2000 <= v && v <= 0x200a)
    ||| v == 0x2028
    ||| v == 0x2029
    ||| v == 0x202f
    ||| v == 0x205f
    ||| v == 0x3000
}

/// Whether `c` has the Unicode `White_Space` property, as
/// `char::is_whitespace` tells.
pub fn is_whitespace(c: char) -> (b: bool)
    ensures
        b == unicode_white_space(c),
{
    let v = c as u32;
    (0x09 <= v && v <= 0x0d) || v == 0x20 || v == 0x85 || v == 0xa0 || v == 0x1680 || (0x2000
        <= v && v <= 0x200a) || v == 0x2028 || v == 0x2029 || v == 0x202f || v == 0x205f || v
        == 0x3000
}

/// The characters of a string, in order.
pub fn chars_of(s: &str) -> (v: Vec<char>)
    ensures
        v@ == s@,
{
    let mut v: Vec<char> = Vec::new();
    proof {
        broadcast use vstd::string::axiom_spec_iter;
    }
    for c in it: s.chars()
        invariant
            v@ == it.seq().take(it.index()),
            it.seq() == s@,
    {
        v.push(c);
    }
    v
}

/// Appends one character: `String::push`.
#[verifier::external_body]
pub(crate) fn push_char(s: &mut String, c: char)
    ensures
        final(s)@ == old(s)@.push(c),
{
    s.push(c);
}

/// The string made of the given characters.
pub fn string_of(v: &Vec<char>) -> (s: String)
    ensures
        s@ == v@,
{
    let mut s = String::new();
    let mut i: usize = 0;
    while i < v.len()
        invariant
            i <= v.len(),
            s@ == v@.take(i as int),
        decreases v.len() - i,
    {
        push_char(&mut s, v[i]);
        assert(v@.take(i + 1) =~= v@.take(i as int).push(v@[i as int]));
        i = i + 1;
    }
    assert(v@.take(v.len() as int) =~= v@);
    s
}

/// What `str::to_lowercase` gives for a string: its lower case according to
/// the Unicode `Lowercase` mapping, with the context rule for final sigma.
pub uninterp spec fn unicode_lowercase(s: Seq<char>) -> Seq<char>;

/// Whether every character of `s` satisfies `p`.
pub open spec fn all_chars(s: Seq<char>, p: spec_fn(char) -> bool) -> bool {
    forall|i: int| 0 <= i < s.len() ==> p(#[trigger] s[i])
}

/// ASCII characters.
pub open spec fn ascii_char() -> spec_fn(char) -> bool {
    |c: char| (c as u32) < 0x80
}

/// Characters that are not ASCII capital letters.
pub open spec fn not_upper() -> spec_fn(char) -> bool {
    |c: char| !('A' <= c && c <= 'Z')
}

/// Whether every character of `s` is ASCII.
pub open spec fn ascii_text(s: Seq<char>) -> bool {
    all_chars(s, ascii_char())
}

/// The ASCII lower case of a character: `A`..`Z` become `a`..`z`, any other
/// character stays.
pub open spec fn ascii_lower_char(c: char) -> char {
    if 'A' <= c && c <= 'Z' {
        ((c as u32) + 32) as char
    } else {
        c
    }
}

/// `s` with each character in ASCII lower case.
pub open spec fn ascii_lowercase(s: Seq<char>) -> Seq<char> {
    s.map_values(|c: char| ascii_lower_char(c))
}

/// The ASCII upper case of a character: `a`..`z` become `A`..`Z`, any other
/// character stays.
pub open spec fn ascii_upper_char(c: char) -> char {
    if 'a' <= c && c <= 'z' {
        ((c as u32) - 32) as char
    } else {
        c
    }
}

/// `s` with each character in ASCII upper case.
pub open spec fn ascii_uppercase(s: Seq<char>) -> Seq<char> {
    s.map_values(|c: char| ascii_upper_char(c))
}

/// `str::to_lowercase`. Its result is a function of the characters of `s`
/// alone, named `unicode_lowercase`; the Unicode tables behind it are not
/// written out here. ASCII text is lowered character by character, `A`..`Z`
/// to `a`..`z`, as the Unicode lower-case mapping of those letters is, with
/// every other ASCII character left as it is.
#[verifier::external_body]
pub(crate) fn to_lowercase(s: &str) -> (r: String)
    ensures
        r@ == unicode_lowercase(s@),
        ascii_text(s@) ==> r@ == ascii_lowercase(s@),
{
    s.to_lowercase()
}

/// `s` with its leading whitespace removed.
pub open spec fn trim_start(s: Seq<char>) -> Seq<char>
    decreases s.len(),
{
    if s.len() > 0 && unicode_white_space(s[0]) {
        trim_start(s.drop_first())
    } else {
        s
    }
}

/// `s` with its trailing whitespace removed.
pub open spec fn trim_end(s: Seq<char>) -> Seq<char>
    decreases s.len(),
{
    if s.len() > 0 && unicode_white_space(s.last()) {
        trim_end(s.drop_last())
    } else {
        s
    }
}

/// `s` with leading and trailing whitespace removed, as `str::trim` does.
pub open spec fn trim(s: Seq<char>) -> Seq<char> {
    trim_end(trim_start(s))
}

pub proof fn lemma_trim_start_suffix(s: Seq<char>)
    ensures
        exists|k: int| 0 <= k <= s.len() && trim_start(s) == s.skip(k),
    decreases s.len(),
{
    if s.len() > 0 && unicode_white_space(s[0]) {
        lemma_trim_start_suffix(s.drop_first());
        let k = choose|k: int|
            0 <= k <= s.drop_first().len() && trim_start(s.drop_first()) == s.drop_first().skip(k);
        assert(s.drop_first().skip(k) =~= s.skip(k + 1));
    } else {
        assert(s.skip(0) =~= s);
    }
}

pub proof fn lemma_trim_end_prefix(s: Seq<char>)
    ensures
        exists|k: int| 0 <= k <= s.len() && trim_end(s) == s.take(k),
    decreases s.len(),
{
    if s.len() > 0 && unicode_white_space(s.last()) {
        lemma_trim_end_prefix(s.drop_last());
        let k = choose|k: int|
            0 <= k <= s.drop_last().len() && trim_end(s.drop_last()) == s.drop_last().take(k);
        assert(s.drop_last().take(k) =~= s.take(k));
    } else {
        assert(s.take(s.len() as int) =~= s);
    }
}

pub proof fn lemma_trim_len(s: Seq<char>)
    ensures
        trim(s).len() <= s.len(),
{
    lemma_trim_start_suffix(s);
    lemma_trim_end_prefix(trim_start(s));
}

/// Removes leading and trailing whitespace.
pub fn trim_chars(s: &Vec<char>) -> (t: Vec<char>)
    ensures
        t@ == trim(s@),
{
    let mut start: usize = 0;
    assert(s@.skip(0) =~= s@);
    while start < s.len() && is_whitespace(s[start])
        invariant
            start <= s.len(),
            trim_start(s@) == trim_start(s@.skip(start as int)),
        decreases s.len() - start,
    {
        assert(s@.skip(start as int).drop_first() =~= s@.skip(start + 1));
        start = start + 1;
    }
    assert(trim_start(s@.skip(start as int)) == s@.skip(start as int));
    let mut end: usize = s.len();
    while end > start && is_whitespace(s[end - 1])
        invariant
            start <= end <= s.len(),
            trim_start(s@) == s@.skip(start as int),
            trim(s@) == trim_end(s@.subrange(start as int, end as int)),
        decreases end,
    {
        assert(s@.subrange(start as int, end as int).drop_last() =~= s@.subrange(
            start as int,
            end - 1,
        ));
        end = end - 1;
    }
    let mut t: Vec<char> = Vec::new();
    let mut i: usize = start;
    while i < end
        invariant
            start <= i <= end <= s.len(),
            t@ == s@.subrange(start as int, i as int),
        decreases end - i,
    {
        t.push(s[i]);
        assert(s@.subrange(start as int, i + 1) =~= s@.subrange(start as int, i as int).push(
            s@[i as int],
        ));
        i = i + 1;
    }
    t
}

/// The words of `t` before its `n`th character, split at each space, and the
/// word that is still open there.
pub open spec fn split_prefix(t: Seq<char>, n: nat) -> (Seq<Seq<char>>, Seq<char>)
    decreases n,
{
    if n == 0 {
        (Seq::empty(), Seq::empty())
    } else {
        let (done, cur) = split_prefix(t, (n - 1) as nat);
        if t[n - 1] == ' ' {
            (done.push(cur), Seq::empty())
        } else {
            (done, cur.push(t[n - 1]))
        }
    }
}

/// `t` split at every space, as `str::split(" ")` does: `k` spaces give
/// `k + 1` words, some of which may be empty.
pub open spec fn split_spaces(t: Seq<char>) -> Seq<Seq<char>> {
    let (done, cur) = split_prefix(t, t.len());
    done.push(cur)
}

/// Total number of characters in a sequence of words.
pub open spec fn sum_lens(ws: Seq<Seq<char>>) -> nat
    decreases ws.len(),
{
    if ws.len() == 0 {
        0
    } else {
        ws[0].len() + sum_lens(ws.drop_first())
    }
}

pub proof fn lemma_sum_lens_push(ws: Seq<Seq<char>>, w: Seq<char>)
    ensures
        sum_lens(ws.push(w)) == sum_lens(ws) + w.len(),
    decreases ws.len(),
{
    if ws.len() > 0 {
        assert(ws.push(w).drop_first() =~= ws.drop_first().push(w));
        lemma_sum_lens_push(ws.drop_first(), w);
    } else {
        assert(ws.push(w).drop_first() =~= Seq::<Seq<char>>::empty());
        assert(sum_lens(Seq::<Seq<char>>::empty()) == 0);
    }
}

pub proof fn lemma_sum_lens_skip(ws: Seq<Seq<char>>, i: int)
    requires
        0 <= i <= ws.len(),
    ensures
        sum_lens(ws.skip(i)) <= sum_lens(ws),
    decreases i,
{
    if i > 0 {
        assert(ws.skip(i) =~= ws.drop_first().skip(i - 1));
        lemma_sum_lens_skip(ws.drop_first(), i - 1);
    } else {
        assert(ws.skip(0) =~= ws);
    }
}

pub proof fn lemma_split_prefix_len(t: Seq<char>, n: nat)
    requires
        n <= t.len(),
    ensures
        sum_lens(split_prefix(t, n).0) + split_prefix(t, n).0.len() + split_prefix(t, n).1.len()
            == n,
    decreases n,
{
    if n > 0 {
        lemma_split_prefix_len(t, (n - 1) as nat);
        let (done, cur) = split_prefix(t, (n - 1) as nat);
        if t[n - 1] == ' ' {
            lemma_sum_lens_push(done, cur);
        }
    }
}

/// The words of a text carry all its characters but the separating spaces.
pub proof fn lemma_split_spaces_len(t: Seq<char>)
    ensures
        sum_lens(split_spaces(t)) + split_spaces(t).len() == t.len() + 1,
{
    lemma_split_prefix_len(t, t.len());
    let (done, cur) = split_prefix(t, t.len());
    lemma_sum_lens_push(done, cur);
}

/// The character sequences of a vector of words.
pub open spec fn words_view(v: Seq<Vec<char>>) -> Seq<Seq<char>> {
    Seq::new(v.len(), |i: int| v[i]@)
}

/// Splits `t` at every space.
pub fn split_spaces_chars(t: &Vec<char>) -> (ws: Vec<Vec<char>>)
    ensures
        words_view(ws@) == split_spaces(t@),
{
    let mut done: Vec<Vec<char>> = Vec::new();
    let mut cur: Vec<char> = Vec::new();
    let mut i: usize = 0;
    while i < t.len()
        invariant
            i <= t.len(),
            (words_view(done@), cur@) == split_prefix(t@, i as nat),
        decreases t.len() - i,
    {
        let ghost old_done = words_view(done@);
        let ghost old_cur = cur@;
        if t[i] == ' ' {
            let finished = cur;
            done.push(finished);
            cur = Vec::new();
            assert(words_view(done@) =~= old_done.push(old_cur));
        } else {
            cur.push(t[i]);
        }
        i = i + 1;
    }
    let ghost old_done = words_view(done@);
    let ghost old_cur = cur@;
    done.push(cur);
    assert(words_view(done@) =~= old_done.push(old_cur));
    done
}

/// Words joined by single spaces.
pub open spec fn join_spaces(ws: Seq<Seq<char>>) -> Seq<char>
    decreases ws.len(),
{
    if ws.len() == 0 {
        Seq::empty()
    } else if ws.len() == 1 {
        ws[0]
    } else {
        join_spaces(ws.drop_last()) + seq![' '] + ws.last()
    }
}

pub proof fn lemma_join_spaces_len(ws: Seq<Seq<char>>)
    requires
        ws.len() > 0,
    ensures
        join_spaces(ws).len() + 1 == sum_lens(ws) + ws.len(),
    decreases ws.len(),
{
    if ws.len() == 1 {
        assert(ws.drop_first() =~= Seq::<Seq<char>>::empty());
        assert(sum_lens(ws.drop_first()) == 0);
    } else {
        lemma_join_spaces_len(ws.drop_last());
        assert(ws.drop_last().push(ws.last()) =~= ws);
        lemma_sum_lens_push(ws.drop_last(), ws.last());
    }
}

/// Whether two character sequences are equal.
pub fn chars_eq(a: &Vec<char>, b: &Vec<char>) -> (r: bool)
    ensures
        r == (a@ == b@),
{
    if a.len() != b.len() {
        return false;
    }
    let mut i: usize = 0;
    while i < a.len()
        invariant
            i <= a.len() == b.len(),
            forall|j: int| 0 <= j < i ==> a@[j] == b@[j],
        decreases a.len() - i,
    {
        if a[i] != b[i] {
            return false;
        }
        i = i + 1;
    }
    assert(a@ =~= b@);
    true
}

/// Whether `s` begins with `c`.
pub open spec fn starts_with(s: Seq<char>, c: char) -> bool {
    s.len() > 0 && s[0] == c
}

/// Whether `s` ends with `c`.
pub open spec fn ends_with(s: Seq<char>, c: char) -> bool {
    s.len() > 0 && s.last() == c
}

pub fn starts_with_char(s: &Vec<char>, c: char) -> (r: bool)
    ensures
        r == starts_with(s@, c),
{
    s.len() > 0 && s[0] == c
}

pub fn ends_with_char(s: &Vec<char>, c: char) -> (r: bool)
    ensures
        r == ends_with(s@, c),
{
    s.len() > 0 && s[s.len() - 1] == c
}

/// Appends the characters of `b` to `a`.
pub fn append_chars(a: &mut Vec<char>, b: &Vec<char>)
    ensures
        final(a)@ == old(a)@ + b@,
{
    let mut i: usize = 0;
    while i < b.len()
        invariant
            i <= b.len(),
            a@ == old(a)@ + b@.take(i as int),
        decreases b.len() - i,
    {
        a.push(b[i]);
        assert(b@.take(i + 1) =~= b@.take(i as int).push(b@[i as int]));
        i = i + 1;
    }
    assert(b@.take(b.len() as int) =~= b@);
}

/// The words found before the `n`th character depend on those characters
/// alone.
pub proof fn lemma_split_prefix_ext(t1: Seq<char>, t2: Seq<char>, n: nat)
    requires
        n <= t1.len(),
        n <= t2.len(),
        t1.take(n as int) == t2.take(n as int),
    ensures
        split_prefix(t1, n) == split_prefix(t2, n),
    decreases n,
{
    if n > 0 {
        assert(t1.take(n - 1) =~= t1.take(n as int).take(n - 1));
        assert(t2.take(n - 1) =~= t2.take(n as int).take(n - 1));
        assert(t1[n - 1] == t1.take(n as int)[n - 1]);
        assert(t2[n - 1] == t2.take(n as int)[n - 1]);
        lemma_split_prefix_ext(t1, t2, (n - 1) as nat);
    }
}

/// Within a word that has no space, the open word grows character by
/// character.
pub proof fn lemma_split_prefix_word(t: Seq<char>, start: nat, done: Seq<Seq<char>>, m: nat)
    requires
        start + m <= t.len(),
        split_prefix(t, start) == (done, Seq::<char>::empty()),
        forall|i: int| start <= i < start + m ==> t[i] != ' ',
    ensures
        split_prefix(t, start + m) == (done, t.subrange(start as int, (start + m) as int)),
    decreases m,
{
    if m == 0 {
        assert(t.subrange(start as int, start as int) =~= Seq::<char>::empty());
    } else {
        lemma_split_prefix_word(t, start, done, (m - 1) as nat);
        assert(t.subrange(start as int, (start + m) as int) =~= t.subrange(start as int, start + m - 1).push(
            t[start + m - 1],
        ));
    }
}

/// Splitting words joined by spaces gives the words back, when none of them
/// holds a space.
pub proof fn lemma_split_join(ws: Seq<Seq<char>>)
    requires
        ws.len() > 0,
        forall|j: int| 0 <= j < ws.len() ==> !(#[trigger] ws[j]).contains(' '),
    ensures
        split_spaces(join_spaces(ws)) == ws,
    decreases ws.len(),
{
    let t = join_spaces(ws);
    let last = ws.last();
    assert(!ws[ws.len() - 1].contains(' '));
    if ws.len() == 1 {
        assert(t == last);
        assert forall|i: int| 0 <= i < 0 + t.len() implies t[i] != ' ' by {
            if t[i] == ' ' {
                assert(last.contains(' '));
            }
        }
        lemma_split_prefix_word(t, 0, Seq::empty(), t.len());
        assert(t.subrange(0, t.len() as int) =~= t);
        assert(Seq::<Seq<char>>::empty().push(t) =~= ws);
    } else {
        let front = ws.drop_last();
        let p = join_spaces(front);
        assert forall|j: int| 0 <= j < front.len() implies !(#[trigger] front[j]).contains(' ') by {
            assert(front[j] == ws[j]);
        }
        lemma_split_join(front);
        assert(t == p + seq![' '] + last);
        let pl = p.len();
        assert(t.take(pl as int) =~= p.take(pl as int));
        lemma_split_prefix_ext(t, p, pl);
        assert(p.take(pl as int) =~= p);
        let (d, c) = split_prefix(p, pl);
        assert(d.push(c) == front);
        assert(t[pl as int] == ' ');
        assert(split_prefix(t, pl + 1) == (front, Seq::<char>::empty()));
        assert forall|i: int| pl + 1 <= i < pl + 1 + last.len() implies t[i] != ' ' by {
            assert(t[i] == last[i - pl - 1]);
            if t[i] == ' ' {
                assert(last.contains(' '));
            }
        }
        lemma_split_prefix_word(t, pl + 1, front, last.len());
        assert(t.subrange((pl + 1) as int, (pl + 1 + last.len()) as int) =~= last);
        assert(front.push(last) =~= ws);
    }
}

/// Words joined by spaces begin with the first word.
pub proof fn lemma_join_spaces_first(ws: Seq<Seq<char>>)
    requires
        ws.len() > 0,
    ensures
        join_spaces(ws).len() >= ws[0].len(),
        join_spaces(ws).take(ws[0].len() as int) == ws[0],
    decreases ws.len(),
{
    if ws.len() > 1 {
        lemma_join_spaces_first(ws.drop_last());
        let p = join_spaces(ws.drop_last());
        assert((p + seq![' '] + ws.last()).take(ws[0].len() as int) =~= p.take(
            ws[0].len() as int,
        ));
    } else {
        assert(ws[0].take(ws[0].len() as int) =~= ws[0]);
    }
}

/// A text that neither begins nor ends with whitespace is its own trim.
pub proof fn lemma_trim_unchanged(s: Seq<char>)
    requires
        s.len() > 0,
        !unicode_white_space(s[0]),
        !unicode_white_space(s.last()),
    ensures
        trim(s) == s,
{
}

/// ASCII lower case keeps ASCII text ASCII, leaves no capital letter, and
/// changes nothing in a text without capital letters.
pub proof fn lemma_ascii_lowercase(s: Seq<char>)
    ensures
        ascii_text(s) ==> ascii_text(ascii_lowercase(s)),
        all_chars(ascii_lowercase(s), not_upper()),
        all_chars(s, not_upper()) ==> ascii_lowercase(s) == s,
        ascii_lowercase(s).len() == s.len(),
{
    let l = ascii_lowercase(s);
    assert forall|i: int| 0 <= i < l.len() implies (not_upper())(#[trigger] l[i]) by {
        assert(l[i] == ascii_lower_char(s[i]));
    }
    if ascii_text(s) {
        assert forall|i: int| 0 <= i < l.len() implies (ascii_char())(#[trigger] l[i]) by {
            assert(l[i] == ascii_lower_char(s[i]));
            assert((ascii_char())(s[i]));
        }
    }
    if all_chars(s, not_upper()) {
        assert forall|i: int| 0 <= i < l.len() implies #[trigger] l[i] == s[i] by {
            assert((not_upper())(s[i]));
        }
        assert(l =~= s);
    }
}

/// A piece of a text has the characters of the text.
pub proof fn lemma_all_chars_subrange(s: Seq<char>, i: int, j: int, p: spec_fn(char) -> bool)
    requires
        all_chars(s, p),
        0 <= i <= j <= s.len(),
    ensures
        all_chars(s.subrange(i, j), p),
{
    assert forall|k: int| 0 <= k < j - i implies p(#[trigger] s.subrange(i, j)[k]) by {
        assert(s.subrange(i, j)[k] == s[i + k]);
    }
}

/// Trimming keeps only characters of the text.
pub proof fn lemma_all_chars_trim(s: Seq<char>, p: spec_fn(char) -> bool)
    requires
        all_chars(s, p),
    ensures
        all_chars(trim(s), p),
{
    lemma_trim_start_suffix(s);
    let k = choose|k: int| 0 <= k <= s.len() && trim_start(s) == s.skip(k);
    assert(s.skip(k) =~= s.subrange(k, s.len() as int));
    lemma_all_chars_subrange(s, k, s.len() as int, p);
    let t = trim_start(s);
    lemma_trim_end_prefix(t);
    let m = choose|m: int| 0 <= m <= t.len() && trim_end(t) == t.take(m);
    assert(t.take(m) =~= t.subrange(0, m));
    lemma_all_chars_subrange(t, 0, m, p);
}

pub proof fn lemma_split_prefix_all_chars(t: Seq<char>, n: nat, p: spec_fn(char) -> bool)
    requires
        all_chars(t, p),
        n <= t.len(),
    ensures
        all_chars(split_prefix(t, n).1, p),
        forall|j: int|
            0 <= j < split_prefix(t, n).0.len() ==> all_chars(#[trigger] split_prefix(t, n).0[j], p),
    decreases n,
{
    if n > 0 {
        lemma_split_prefix_all_chars(t, (n - 1) as nat, p);
        let (done, cur) = split_prefix(t, (n - 1) as nat);
        assert(p(t[n - 1]));
        if t[n - 1] == ' ' {
            assert forall|j: int| 0 <= j < done.push(cur).len() implies all_chars(
                #[trigger] done.push(cur)[j],
                p,
            ) by {
                if j < done.len() {
                    assert(done.push(cur)[j] == done[j]);
                }
            }
            assert(all_chars(Seq::<char>::empty(), p));
        } else {
            assert forall|i: int| 0 <= i < cur.push(t[n - 1]).len() implies p(
                #[trigger] cur.push(t[n - 1])[i],
            ) by {
                if i < cur.len() {
                    assert(cur.push(t[n - 1])[i] == cur[i]);
                }
            }
        }
    }
}

/// The words of a text have the characters of the text.
pub proof fn lemma_split_spaces_all_chars(t: Seq<char>, p: spec_fn(char) -> bool)
    requires
        all_chars(t, p),
    ensures
        forall|j: int|
            0 <= j < split_spaces(t).len() ==> all_chars(#[trigger] split_spaces(t)[j], p),
{
    lemma_split_prefix_all_chars(t, t.len(), p);
    let (done, cur) = split_prefix(t, t.len());
    assert forall|j: int| 0 <= j < done.push(cur).len() implies all_chars(
        #[trigger] done.push(cur)[j],
        p,
    ) by {
        if j < done.len() {
            assert(done.push(cur)[j] == done[j]);
        }
    }
}

/// Joining words by spaces adds only spaces.
pub proof fn lemma_join_spaces_all_chars(ws: Seq<Seq<char>>, p: spec_fn(char) -> bool)
    requires
        p(' '),
        forall|j: int| 0 <= j < ws.len() ==> all_chars(#[trigger] ws[j], p),
    ensures
        all_chars(join_spaces(ws), p),
    decreases ws.len(),
{
    if ws.len() == 1 {
        assert(all_chars(ws[0], p));
    } else if ws.len() > 1 {
        let front = ws.drop_last();
        assert forall|j: int| 0 <= j < front.len() implies all_chars(#[trigger] front[j], p) by {
            assert(front[j] == ws[j]);
        }
        lemma_join_spaces_all_chars(front, p);
        let a = join_spaces(front);
        let b = ws.last();
        assert(all_chars(b, p));
        let t = a + seq![' '] + b;
        assert forall|i: int| 0 <= i < t.len() implies p(#[trigger] t[i]) by {
            if i < a.len() {
                assert(t[i] == a[i]);
            } else if i == a.len() {
                assert(t[i] == ' ');
            } else {
                assert(t[i] == b[i - a.len() - 1]);
            }
        }
    }
}

/// ASCII upper case keeps ASCII text ASCII and has the same lower case.
pub proof fn lemma_ascii_uppercase(s: Seq<char>)
    ensures
        ascii_text(s) ==> ascii_text(ascii_uppercase(s)),
        ascii_lowercase(ascii_uppercase(s)) == ascii_lowercase(s),
{
    let u = ascii_uppercase(s);
    assert forall|i: int| 0 <= i < s.len() implies #[trigger] ascii_lowercase(u)[i]
        == ascii_lowercase(s)[i] by {
        let c = s[i];
        assert(u[i] == ascii_upper_char(c));
        if 'a' <= c && c <= 'z' {
            assert('A' <= ascii_upper_char(c) && ascii_upper_char(c) <= 'Z');
            assert((ascii_upper_char(c) as u32) + 32 == c as u32);
        }
    }
    assert(ascii_lowercase(u) =~= ascii_lowercase(s));
    if ascii_text(s) {
        assert forall|i: int| 0 <= i < u.len() implies (ascii_char())(#[trigger] u[i]) by {
            assert(u[i] == ascii_upper_char(s[i]));
            assert((ascii_char())(s[i]));
        }
    }
}

/// Two texts whose characters satisfy `p` make such a text.
pub proof fn lemma_all_chars_concat(a: Seq<char>, b: Seq<char>, p: spec_fn(char) -> bool)
    requires
        all_chars(a, p),
        all_chars(b, p),
    ensures
        all_chars(a + b, p),
{
    assert forall|i: int| 0 <= i < (a + b).len() implies p(#[trigger] (a + b)[i]) by {
        if i < a.len() {
            assert((a + b)[i] == a[i]);
        } else {
            assert((a + b)[i] == b[i - a.len()]);
        }
    }
}

} // verus!
