//! Translation of queries written in FROM-WHERE-SELECT order (SQL-FWS) into
//! standard SQL, where the SELECT clause comes first.
//!
//! A query is lowered, a trailing `;` is dropped, and the text is trimmed and
//! split at spaces. When the first word is `from`, the words are dealt to the
//! `select`, `from` and `where` clauses by a small state machine, and the
//! clauses are put back together in the order select, from, where. A word
//! that opens a parenthesis starts a nested query, which is translated on
//! its own. Any other query is returned lowered, without its `;`.

use vstd::prelude::*;
use crate::text::{
    all_chars, append_chars, ascii_char, ascii_lowercase, ascii_text, chars_eq, chars_of, ends_with,
    ends_with_char, join_spaces, lemma_all_chars_subrange, lemma_all_chars_trim,
    lemma_ascii_lowercase, lemma_join_spaces_all_chars, lemma_join_spaces_len,
    lemma_split_spaces_all_chars, lemma_split_spaces_len, lemma_sum_lens_skip, lemma_trim_len,
    split_spaces, split_spaces_chars, starts_with, starts_with_char, string_of, sum_lens,
    to_lowercase, trim, trim_chars, unicode_lowercase, words_view,
};

verus! {

/// The clauses of an SQL-FWS query. `Skip` marks the words of a nested
/// query, which have already been translated.
#[derive(PartialEq, Eq, Structural, Clone, Copy, Debug)]
pub enum Clause {
    Select,
    From,
    Where,
    Skip,
}

impl Clause {
    /// The keyword of the clause.
    pub open spec fn word(self) -> Seq<char> {
        match self {
            Clause::Select => seq!['s', 'e', 'l', 'e', 'c', 't'],
            Clause::From => seq!['f', 'r', 'o', 'm'],
            Clause::Where => seq!['w', 'h', 'e', 'r', 'e'],
            Clause::Skip => seq!['s', 'k', 'i', 'p'],
        }
    }

    /// The keyword of the clause, in lower case.
    pub fn as_str(&self) -> (s: &'static str)
        ensures
            s@ == self.word(),
    {
        match self {
            Clause::Select => {
                proof {
                    reveal_strlit("select");
                }
                "select"
            },
            Clause::From => {
                proof {
                    reveal_strlit("from");
                }
                "from"
            },
            Clause::Where => {
                proof {
                    reveal_strlit("where");
                }
                "where"
            },
            Clause::Skip => {
                proof {
                    reveal_strlit("skip");
                }
                "skip"
            },
        }
    }
}

/// State of the query parser: the clause that takes the next word, and the
/// clause that took words before it.
#[derive(PartialEq, Eq, Structural, Clone, Copy, Debug)]
pub struct ParserState {
    pub current_clause: Clause,
    pub last_clause: Clause,
}

impl ParserState {
    /// The state after switching to clause `c`.
    pub open spec fn after_set(self, c: Clause) -> ParserState {
        ParserState { current_clause: c, last_clause: self.current_clause }
    }

    /// The state in which a query starts: its first word is `from`.
    pub fn new() -> (s: Self)
        ensures
            s.current_clause == Clause::From,
            s.last_clause == Clause::From,
    {
        ParserState { current_clause: Clause::From, last_clause: Clause::From }
    }

    /// Switches to `new_state`, remembering the clause that was current.
    pub fn set(&mut self, new_state: Clause)
        ensures
            *final(self) == old(self).after_set(new_state),
    {
        self.last_clause = self.current_clause;
        self.current_clause = new_state;
    }
}

/// What the parser has gathered after some words of a query: its state,
/// whether it is inside a quoted string, and the text of each clause.
pub struct Clauses {
    pub state: ParserState,
    pub in_string: bool,
    pub select_text: Seq<char>,
    pub from_text: Seq<char>,
    pub where_text: Seq<char>,
}

impl Clauses {
    /// Nothing gathered yet.
    pub open spec fn initial() -> Clauses {
        Clauses {
            state: ParserState { current_clause: Clause::From, last_clause: Clause::From },
            in_string: false,
            select_text: Seq::empty(),
            from_text: Seq::empty(),
            where_text: Seq::empty(),
        }
    }

    /// `text` added, after a space, to the current clause; nothing changes
    /// while a nested query is skipped.
    pub open spec fn append(self, text: Seq<char>) -> Clauses {
        match self.state.current_clause {
            Clause::Select => Clauses { select_text: self.select_text + seq![' '] + text, ..self },
            Clause::From => Clauses { from_text: self.from_text + seq![' '] + text, ..self },
            Clause::Where => Clauses { where_text: self.where_text + seq![' '] + text, ..self },
            Clause::Skip => self,
        }
    }

    /// The standard SQL query: select, from and where clauses, in that order.
    pub open spec fn assemble(self) -> Seq<char> {
        self.select_text + seq![' '] + self.from_text + seq![' '] + self.where_text
    }
}

/// `s` without a trailing `;`.
pub open spec fn strip_semicolon(s: Seq<char>) -> Seq<char> {
    if ends_with(s, ';') {
        s.drop_last()
    } else {
        s
    }
}

/// The words of a lowered query: without its `;`, trimmed, split at spaces.
pub open spec fn query_words(low: Seq<char>) -> Seq<Seq<char>> {
    split_spaces(trim(strip_semicolon(low)))
}

/// Whether a word is one of the keywords that switch clauses.
pub open spec fn is_keyword(w: Seq<char>) -> bool {
    w == Clause::Select.word() || w == Clause::From.word() || w == Clause::Where.word()
}

/// The clause that a keyword switches to.
pub open spec fn keyword_clause(w: Seq<char>) -> Clause {
    if w == Clause::Select.word() {
        Clause::Select
    } else if w == Clause::From.word() {
        Clause::From
    } else {
        Clause::Where
    }
}

/// Whether a word opens a quoted string that it does not close.
pub open spec fn opens_string(w: Seq<char>) -> bool {
    starts_with(w, '"') && !ends_with(w, '"')
}

/// `w` without a leading `(`.
pub open spec fn strip_open_paren(w: Seq<char>) -> Seq<char> {
    if starts_with(w, '(') {
        w.drop_first()
    } else {
        w
    }
}

/// The words of a nested query that starts at word `j`: each without a
/// leading `(`, up to and including the first that ends with `)`, which
/// loses that `)`.
pub open spec fn subquery_pieces(ws: Seq<Seq<char>>, j: int) -> Seq<Seq<char>>
    decreases ws.len() - j,
{
    if j < 0 || j >= ws.len() {
        Seq::empty()
    } else {
        let p = strip_open_paren(ws[j]);
        if ends_with(p, ')') {
            seq![p.drop_last()]
        } else {
            seq![p] + subquery_pieces(ws, j + 1)
        }
    }
}

/// The text of the nested query that starts at word `i`.
pub open spec fn subquery_text(ws: Seq<Seq<char>>, i: int) -> Seq<char> {
    join_spaces(subquery_pieces(ws, i))
}

/// What a word that does not open a nested query does to the clauses.
pub open spec fn word_step(acc: Clauses, part: Seq<char>) -> Clauses {
    if ends_with(part, ')') && acc.state.current_clause == Clause::Skip {
        Clauses { state: acc.state.after_set(acc.state.last_clause), ..acc }
    } else if acc.state.current_clause != Clause::Skip {
        let in_string = if opens_string(part) {
            true
        } else if acc.in_string && ends_with(part, '"') {
            false
        } else {
            acc.in_string
        };
        let state = if !in_string && is_keyword(part) {
            acc.state.after_set(keyword_clause(part))
        } else {
            acc.state
        };
        Clauses { state, in_string, ..acc }.append(part)
    } else {
        acc
    }
}

pub proof fn lemma_subquery_pieces_len(ws: Seq<Seq<char>>, j: int)
    requires
        0 <= j < ws.len(),
    ensures
        subquery_pieces(ws, j).len() > 0,
        sum_lens(subquery_pieces(ws, j)) + subquery_pieces(ws, j).len() + (if starts_with(
            ws[j],
            '(',
        ) {
            1int
        } else {
            0int
        }) <= sum_lens(ws.skip(j)) + ws.len() - j,
    decreases ws.len() - j,
{
    let p = strip_open_paren(ws[j]);
    let ps = subquery_pieces(ws, j);
    let d: int = if starts_with(ws[j], '(') { 1 } else { 0 };
    assert(p.len() + d == ws[j].len());
    assert(ws.skip(j).drop_first() =~= ws.skip(j + 1));
    assert(sum_lens(ws.skip(j)) == ws[j].len() + sum_lens(ws.skip(j + 1)));
    if ends_with(p, ')') {
        assert(ps.drop_first() =~= Seq::<Seq<char>>::empty());
        assert(sum_lens(Seq::<Seq<char>>::empty()) == 0);
        assert(ps[0] == p.drop_last());
        assert(sum_lens(ps) == p.len() - 1);
    } else {
        assert(ps.drop_first() =~= subquery_pieces(ws, j + 1));
        if j + 1 < ws.len() {
            lemma_subquery_pieces_len(ws, j + 1);
        } else {
            assert(subquery_pieces(ws, j + 1) =~= Seq::<Seq<char>>::empty());
        }
    }
}

/// A nested query is shorter than the words it is taken from.
pub proof fn lemma_subquery_shorter(ws: Seq<Seq<char>>, i: int)
    requires
        0 <= i < ws.len(),
        starts_with(ws[i], '('),
    ensures
        subquery_text(ws, i).len() + 2 <= sum_lens(ws) + ws.len(),
{
    lemma_subquery_pieces_len(ws, i);
    lemma_join_spaces_len(subquery_pieces(ws, i));
    lemma_sum_lens_skip(ws, i);
}

/// The words of a lowered query carry all of it but its `;`, its outer
/// whitespace and the spaces between words.
pub proof fn lemma_query_words_len(low: Seq<char>)
    ensures
        sum_lens(query_words(low)) + query_words(low).len() <= low.len() + 1,
        query_words(low).len() > 0,
{
    let s = strip_semicolon(low);
    lemma_trim_len(s);
    lemma_split_spaces_len(trim(s));
}

/// The clauses after the first `n` words of an SQL-FWS query.
///
/// A word that opens a parenthesis starts a nested query, which is lowered
/// and translated as a query of its own and added in parentheses; the parser
/// then skips words up to one that closes the parenthesis. The lowered
/// nested query is used when it is shorter than the text the words came
/// from, which is what bounds the recursion; lowering text that is already
/// in lower case never lengthens it, and where it would, the nested query is
/// translated as it stands.
pub open spec fn run_words(ws: Seq<Seq<char>>, n: nat, lower: spec_fn(Seq<char>) -> Seq<char>) -> Clauses
    decreases sum_lens(ws) + ws.len(), 0nat, n,
{
    if n == 0 || n > ws.len() {
        Clauses::initial()
    } else {
        let acc = run_words(ws, (n - 1) as nat, lower);
        let i = n - 1;
        let part = ws[i];
        let acc1 = if starts_with(part, '(') {
            let sub = subquery_text(ws, i);
            let sub_low = lower(sub);
            let inner = if sub_low.len() + 1 < sum_lens(ws) + ws.len() {
                translate_lowered(sub_low, lower)
            } else {
                proof {
                    lemma_subquery_shorter(ws, i);
                }
                translate_lowered(sub, lower)
            };
            let nested = seq!['('] + inner + seq![')'];
            let appended = acc.append(nested);
            Clauses { state: acc.state.after_set(Clause::Skip), ..appended }
        } else {
            acc
        };
        word_step(acc1, part)
    }
}

/// The standard SQL for the words of an SQL-FWS query.
pub open spec fn lqs_words(ws: Seq<Seq<char>>, lower: spec_fn(Seq<char>) -> Seq<char>) -> Seq<char>
    decreases sum_lens(ws) + ws.len(), 0nat, ws.len() + 1,
{
    run_words(ws, ws.len(), lower).assemble()
}

/// The translation of a query that is already in lower case; `lower` is how
/// the text of a nested query is lowered again.
pub open spec fn translate_lowered(low: Seq<char>, lower: spec_fn(Seq<char>) -> Seq<char>) -> Seq<
    char,
>
    decreases low.len() + 1, 1nat, 0nat,
{
    let ws = query_words(low);
    if ws.len() > 0 && ws[0] == Clause::From.word() {
        proof {
            lemma_query_words_len(low);
        }
        lqs_words(ws, lower)
    } else {
        strip_semicolon(low)
    }
}

/// Lower case as `str::to_lowercase` gives it.
pub open spec fn unicode_lower() -> spec_fn(Seq<char>) -> Seq<char> {
    |s: Seq<char>| unicode_lowercase(s)
}

/// ASCII lower case, which `str::to_lowercase` gives for ASCII text.
pub open spec fn ascii_lower() -> spec_fn(Seq<char>) -> Seq<char> {
    |s: Seq<char>| ascii_lowercase(s)
}

/// The translation of any query: its lower case, translated.
pub open spec fn translate(q: Seq<char>) -> Seq<char> {
    translate_lowered(unicode_lowercase(q), unicode_lower())
}

/// The translation of an ASCII query: its ASCII lower case, translated, each
/// nested query lowered again the same way.
pub open spec fn translate_ascii(q: Seq<char>) -> Seq<char> {
    translate_lowered(ascii_lowercase(q), ascii_lower())
}

/// Whether every word is ASCII text.
pub open spec fn ascii_words(ws: Seq<Seq<char>>) -> bool {
    forall|j: int| 0 <= j < ws.len() ==> all_chars(#[trigger] ws[j], ascii_char())
}

/// The pieces of a nested query have only characters of its words.
pub proof fn lemma_subquery_pieces_all_chars(
    ws: Seq<Seq<char>>,
    j: int,
    p: spec_fn(char) -> bool,
)
    requires
        forall|k: int| 0 <= k < ws.len() ==> all_chars(#[trigger] ws[k], p),
    ensures
        forall|k: int|
            0 <= k < subquery_pieces(ws, j).len() ==> all_chars(
                #[trigger] subquery_pieces(ws, j)[k],
                p,
            ),
    decreases ws.len() - j,
{
    if 0 <= j < ws.len() {
        let w = ws[j];
        let q = strip_open_paren(w);
        assert(all_chars(w, p));
        if starts_with(w, '(') {
            assert(q =~= w.subrange(1, w.len() as int));
            lemma_all_chars_subrange(w, 1, w.len() as int, p);
        }
        let ps = subquery_pieces(ws, j);
        if ends_with(q, ')') {
            assert(q.drop_last() =~= q.subrange(0, q.len() - 1));
            lemma_all_chars_subrange(q, 0, q.len() - 1, p);
            assert(ps[0] == q.drop_last());
        } else {
            lemma_subquery_pieces_all_chars(ws, j + 1, p);
            let rest = subquery_pieces(ws, j + 1);
            assert forall|k: int| 0 <= k < ps.len() implies all_chars(#[trigger] ps[k], p) by {
                if k > 0 {
                    assert(ps[k] == rest[k - 1]);
                } else {
                    assert(ps[0] == q);
                }
            }
        }
    }
}

/// The text of a nested query in ASCII words is ASCII.
pub proof fn lemma_subquery_ascii(ws: Seq<Seq<char>>, i: int)
    requires
        ascii_words(ws),
    ensures
        ascii_text(subquery_text(ws, i)),
{
    lemma_subquery_pieces_all_chars(ws, i, ascii_char());
    lemma_join_spaces_all_chars(subquery_pieces(ws, i), ascii_char());
}

/// The words of a query have only characters of the query.
pub proof fn lemma_query_words_all_chars(low: Seq<char>, p: spec_fn(char) -> bool)
    requires
        all_chars(low, p),
    ensures
        forall|j: int|
            0 <= j < query_words(low).len() ==> all_chars(#[trigger] query_words(low)[j], p),
{
    let s = strip_semicolon(low);
    if ends_with(low, ';') {
        assert(s =~= low.subrange(0, low.len() - 1));
        lemma_all_chars_subrange(low, 0, low.len() - 1, p);
    }
    lemma_all_chars_trim(s, p);
    lemma_split_spaces_all_chars(trim(s), p);
}

/// `s` without a trailing `;`.
fn strip_semicolon_chars(s: &Vec<char>) -> (r: Vec<char>)
    ensures
        r@ == strip_semicolon(s@),
{
    let n: usize = if ends_with_char(s, ';') {
        s.len() - 1
    } else {
        s.len()
    };
    let mut r: Vec<char> = Vec::new();
    let mut i: usize = 0;
    while i < n
        invariant
            n <= s.len(),
            i <= n,
            r@ == s@.take(i as int),
        decreases n - i,
    {
        r.push(s[i]);
        assert(s@.take(i + 1) =~= s@.take(i as int).push(s@[i as int]));
        i = i + 1;
    }
    assert(strip_semicolon(s@) =~= s@.take(n as int));
    r
}

/// Words joined by single spaces.
fn join_spaces_chars(ps: &Vec<Vec<char>>) -> (r: Vec<char>)
    ensures
        r@ == join_spaces(words_view(ps@)),
{
    let ghost pv = words_view(ps@);
    let mut r: Vec<char> = Vec::new();
    let mut k: usize = 0;
    while k < ps.len()
        invariant
            k <= ps.len(),
            pv == words_view(ps@),
            r@ == join_spaces(pv.take(k as int)),
        decreases ps.len() - k,
    {
        assert(pv.take(k + 1).drop_last() =~= pv.take(k as int));
        assert(pv.take(k + 1).last() == ps@[k as int]@);
        if k > 0 {
            r.push(' ');
        } else {
            assert(r@ =~= Seq::<char>::empty());
        }
        append_chars(&mut r, &ps[k]);
        k = k + 1;
    }
    assert(pv.take(ps.len() as int) =~= pv);
    r
}

/// The text of the nested query that starts at word `i`.
fn subquery_chars(ws: &Vec<Vec<char>>, i: usize) -> (r: Vec<char>)
    requires
        i < ws.len(),
    ensures
        r@ == subquery_text(words_view(ws@), i as int),
{
    let ghost wv = words_view(ws@);
    let mut pieces: Vec<Vec<char>> = Vec::new();
    let mut j: usize = i;
    let mut done = false;
    while j < ws.len() && !done
        invariant
            i <= j <= ws.len(),
            wv == words_view(ws@),
            done ==> words_view(pieces@) == subquery_pieces(wv, i as int),
            !done ==> words_view(pieces@) + subquery_pieces(wv, j as int) == subquery_pieces(
                wv,
                i as int,
            ),
        decreases ws.len() - j,
    {
        let ghost old_pieces = words_view(pieces@);
        let part = &ws[j];
        assert(part@ == wv[j as int]);
        let mut piece: Vec<char> = Vec::new();
        let mut k: usize = if starts_with_char(part, '(') {
            1
        } else {
            0
        };
        let closes = ends_with_char(part, ')') && part.len() > k;
        let stop: usize = if closes {
            part.len() - 1
        } else {
            part.len()
        };
        let start = k;
        let ghost p = strip_open_paren(part@);
        assert(p =~= part@.skip(k as int));
        while k < stop
            invariant
                start <= k <= stop <= part.len(),
                piece@ == part@.subrange(start as int, k as int),
            decreases stop - k,
        {
            piece.push(part[k]);
            assert(part@.subrange(start as int, k + 1) =~= part@.subrange(start as int, k as int).push(part@[k as int]));
            k = k + 1;
        }
        if closes {
            assert(piece@ =~= p.drop_last());
            done = true;
        } else {
            assert(piece@ =~= p);
            assert(!ends_with(p, ')'));
        }
        pieces.push(piece);
        assert(words_view(pieces@) =~= old_pieces.push(piece@));
        if !closes {
            assert(subquery_pieces(wv, j as int) =~= seq![p] + subquery_pieces(wv, j + 1));
            assert(old_pieces.push(piece@) + subquery_pieces(wv, j + 1) =~= old_pieces
                + subquery_pieces(wv, j as int));
        } else {
            assert(subquery_pieces(wv, j as int) =~= seq![p.drop_last()]);
        }
        j = j + 1;
    }
    if !done {
        assert(subquery_pieces(wv, j as int) =~= Seq::<Seq<char>>::empty());
        assert(words_view(pieces@) =~= subquery_pieces(wv, i as int));
    }
    join_spaces_chars(&pieces)
}

/// Adds `text`, after a space, to the current clause.
fn append_to_clause(
    state: ParserState,
    select_text: &mut Vec<char>,
    from_text: &mut Vec<char>,
    where_text: &mut Vec<char>,
    text: &Vec<char>,
)
    ensures
        ({
            let before = Clauses {
                state,
                in_string: false,
                select_text: old(select_text)@,
                from_text: old(from_text)@,
                where_text: old(where_text)@,
            };
            let after = before.append(text@);
            &&& final(select_text)@ == after.select_text
            &&& final(from_text)@ == after.from_text
            &&& final(where_text)@ == after.where_text
        }),
{
    match state.current_clause {
        Clause::Select => {
            select_text.push(' ');
            append_chars(select_text, text);
        },
        Clause::From => {
            from_text.push(' ');
            append_chars(from_text, text);
        },
        Clause::Where => {
            where_text.push(' ');
            append_chars(where_text, text);
        },
        Clause::Skip => {},
    }
}

/// The standard SQL for the words of an SQL-FWS query; `text_len` is the
/// length of the text they were split from.
fn translate_words(ws: &Vec<Vec<char>>, text_len: usize) -> (r: Vec<char>)
    requires
        text_len + 1 == sum_lens(words_view(ws@)) + ws.len(),
    ensures
        r@ == lqs_words(words_view(ws@), unicode_lower()),
        ascii_words(words_view(ws@)) ==> r@ == lqs_words(words_view(ws@), ascii_lower()),
    decreases sum_lens(words_view(ws@)) + ws.len(), 0nat,
{
    let ghost wv = words_view(ws@);
    let select_kw = chars_of(Clause::Select.as_str());
    let from_kw = chars_of(Clause::From.as_str());
    let where_kw = chars_of(Clause::Where.as_str());
    let mut state = ParserState::new();
    let mut in_string = false;
    let mut select_text: Vec<char> = Vec::new();
    let mut from_text: Vec<char> = Vec::new();
    let mut where_text: Vec<char> = Vec::new();
    let mut i: usize = 0;
    while i < ws.len()
        invariant
            i <= ws.len(),
            wv == words_view(ws@),
            text_len + 1 == sum_lens(wv) + wv.len(),
            select_kw@ == Clause::Select.word(),
            from_kw@ == Clause::From.word(),
            where_kw@ == Clause::Where.word(),
            (Clauses {
                state,
                in_string,
                select_text: select_text@,
                from_text: from_text@,
                where_text: where_text@,
            }) == run_words(wv, i as nat, unicode_lower()),
            ascii_words(wv) ==> (Clauses {
                state,
                in_string,
                select_text: select_text@,
                from_text: from_text@,
                where_text: where_text@,
            }) == run_words(wv, i as nat, ascii_lower()),
        decreases ws.len() - i,
    {
        let part = &ws[i];
        assert(part@ == wv[i as int]);
        if starts_with_char(part, '(') {
            let sub = subquery_chars(ws, i);
            proof {
                lemma_subquery_shorter(wv, i as int);
                if ascii_words(wv) {
                    lemma_subquery_ascii(wv, i as int);
                    lemma_ascii_lowercase(sub@);
                }
            }
            let sub_string = string_of(&sub);
            let sub_lower = to_lowercase(sub_string.as_str());
            let sub_low = chars_of(sub_lower.as_str());
            let inner = if sub_low.len() < text_len {
                translate_chars(&sub_low)
            } else {
                translate_chars(&sub)
            };
            assert(sub_low@ == (unicode_lower())(sub@));
            assert(ascii_words(wv) ==> sub_low@ == (ascii_lower())(sub@));
            let mut nested: Vec<char> = Vec::new();
            nested.push('(');
            append_chars(&mut nested, &inner);
            nested.push(')');
            assert(nested@ =~= seq!['('] + inner@ + seq![')']);
            append_to_clause(state, &mut select_text, &mut from_text, &mut where_text, &nested);
            state.set(Clause::Skip);
        }
        if ends_with_char(part, ')') && state.current_clause == Clause::Skip {
            let last = state.last_clause;
            state.set(last);
        } else if state.current_clause != Clause::Skip {
            if starts_with_char(part, '"') && !ends_with_char(part, '"') {
                in_string = true;
            } else if in_string && ends_with_char(part, '"') {
                in_string = false;
            }
            let is_select = chars_eq(part, &select_kw);
            let is_from = chars_eq(part, &from_kw);
            let is_where = chars_eq(part, &where_kw);
            if !in_string && (is_select || is_from || is_where) {
                if is_select {
                    state.set(Clause::Select);
                } else if is_from {
                    state.set(Clause::From);
                } else if is_where {
                    state.set(Clause::Where);
                }
            }
            append_to_clause(state, &mut select_text, &mut from_text, &mut where_text, part);
        }
        i = i + 1;
    }
    let mut r = select_text;
    r.push(' ');
    append_chars(&mut r, &from_text);
    r.push(' ');
    append_chars(&mut r, &where_text);
    r
}

/// The translation of a query that is already in lower case.
fn translate_chars(low: &Vec<char>) -> (r: Vec<char>)
    ensures
        r@ == translate_lowered(low@, unicode_lower()),
        ascii_text(low@) ==> r@ == translate_lowered(low@, ascii_lower()),
    decreases low@.len() + 1, 1nat,
{
    let s = strip_semicolon_chars(low);
    let t = trim_chars(&s);
    let ws = split_spaces_chars(&t);
    proof {
        lemma_query_words_len(low@);
        lemma_split_spaces_len(t@);
        if ascii_text(low@) {
            lemma_query_words_all_chars(low@, ascii_char());
        }
    }
    let from_kw = chars_of(Clause::From.as_str());
    if ws.len() > 0 && chars_eq(&ws[0], &from_kw) {
        assert(ws@[0]@ == words_view(ws@)[0]);
        translate_words(&ws, t.len())
    } else {
        s
    }
}

/// Translates a query in SQL-FWS order (`from ... where ... select ...`) into
/// standard SQL (`select ... from ... where ...`). The query is lowered
/// first; any query whose first word is not `from` comes back lowered and
/// without a trailing `;`.
pub fn parse(q: String) -> (r: String)
    ensures
        r@ == translate(q@),
        ascii_text(q@) ==> r@ == translate_ascii(q@),
{
    let lower = to_lowercase(q.as_str());
    proof {
        lemma_ascii_lowercase(q@);
    }
    parse_lowered(lower)
}

/// Translates a query that is already in lower case, as `parse` does once it
/// has lowered its query; nested queries are lowered again with
/// `str::to_lowercase`.
pub fn parse_lowered(low: String) -> (r: String)
    ensures
        r@ == translate_lowered(low@, unicode_lower()),
        ascii_text(low@) ==> r@ == translate_lowered(low@, ascii_lower()),
{
    let chars = chars_of(low.as_str());
    let r = translate_chars(&chars);
    string_of(&r)
}

} // verus!
