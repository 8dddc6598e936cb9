//! Properties of a whole scan, proved from the grammar.
use crate::grammar::{
    at, ats_end, block_from, digits_end, escape_fits, escape_width, ident_end, lex_from,
    line_comment_at, line_end, literal_end, number_end, quoted_from, step, token_of, tokenized,
    trim_end, triple_at, triple_from, ws_end, Scan, line_col, opens_type,
};
use crate::text::{digit, ident_char, white_space};
use crate::token::TokenView;
use vstd::prelude::*;

verus! {

/// Every character of `s` from `lo` up to `hi` is whitespace.
pub open spec fn all_white(s: Seq<char>, lo: int, hi: int) -> bool {
    forall|i: int| lo <= i < hi ==> white_space(#[trigger] s[i])
}

/// Each gap holds whitespace only.
pub open spec fn white_gaps(gaps: Seq<Seq<char>>) -> bool {
    forall|k: int| 0 <= k < gaps.len() ==> all_white(#[trigger] gaps[k], 0, gaps[k].len() as int)
}

/// The text made of each gap followed by the literal of the token at the same place.
pub open spec fn interleave(gaps: Seq<Seq<char>>, ts: Seq<TokenView>) -> Seq<char>
    decreases ts.len(),
{
    if ts.len() == 0 || gaps.len() == 0 {
        Seq::empty()
    } else {
        gaps[0] + ts[0].literal + interleave(gaps.drop_first(), ts.drop_first())
    }
}

proof fn lemma_ws_end_prefix(s: Seq<char>, n: int, i: int)
    requires
        0 <= i <= s.len(),
        0 <= n <= s.len(),
    ensures
        i <= ws_end(s, i) <= s.len(),
        i <= n && ws_end(s, i) <= n ==> ws_end(s.subrange(0, n), i) == ws_end(s, i),
        i <= n < ws_end(s, i) ==> ws_end(s.subrange(0, n), i) == n,
    decreases s.len() - i,
{
    if i < s.len() && white_space(s[i]) {
        lemma_ws_end_prefix(s, n, i + 1);
    }
}

proof fn lemma_digits_end_prefix(s: Seq<char>, n: int, i: int)
    requires
        0 <= i <= s.len(),
        0 <= n <= s.len(),
    ensures
        i <= digits_end(s, i) <= s.len(),
        i <= n && digits_end(s, i) <= n ==> digits_end(s.subrange(0, n), i) == digits_end(s, i),
        i <= n < digits_end(s, i) ==> digits_end(s.subrange(0, n), i) == n,
    decreases s.len() - i,
{
    if i < s.len() && digit(s[i]) {
        lemma_digits_end_prefix(s, n, i + 1);
    }
}

proof fn lemma_ident_end_prefix(s: Seq<char>, n: int, i: int)
    requires
        0 <= i <= s.len(),
        0 <= n <= s.len(),
    ensures
        i <= ident_end(s, i) <= s.len(),
        i <= n && ident_end(s, i) <= n ==> ident_end(s.subrange(0, n), i) == ident_end(s, i),
        i <= n < ident_end(s, i) ==> ident_end(s.subrange(0, n), i) == n,
    decreases s.len() - i,
{
    if i < s.len() && ident_char(s[i]) {
        lemma_ident_end_prefix(s, n, i + 1);
    }
}

proof fn lemma_ats_end_prefix(s: Seq<char>, n: int, i: int)
    requires
        0 <= i <= s.len(),
        0 <= n <= s.len(),
    ensures
        i <= ats_end(s, i) <= s.len(),
        i <= n && ats_end(s, i) <= n ==> ats_end(s.subrange(0, n), i) == ats_end(s, i),
        i <= n < ats_end(s, i) ==> ats_end(s.subrange(0, n), i) == n,
    decreases s.len() - i,
{
    if i < s.len() && s[i] == '@' {
        lemma_ats_end_prefix(s, n, i + 1);
    }
}

proof fn lemma_line_end_prefix(s: Seq<char>, n: int, i: int)
    requires
        0 <= i <= s.len(),
        0 <= n <= s.len(),
    ensures
        i <= line_end(s, i) <= s.len(),
        i <= n && line_end(s, i) <= n ==> line_end(s.subrange(0, n), i) == line_end(s, i),
        i <= n < line_end(s, i) ==> line_end(s.subrange(0, n), i) == n,
    decreases s.len() - i,
{
    if i < s.len() && s[i] != '\n' {
        lemma_line_end_prefix(s, n, i + 1);
    }
}

proof fn lemma_quoted_prefix(s: Seq<char>, n: int, q: char, i: int)
    requires
        0 <= i <= s.len(),
        0 <= n <= s.len(),
    ensures
        quoted_from(s, q, i) matches Scan::Ends(e) ==> i < e <= s.len() && (e <= n ==> quoted_from(
            s.subrange(0, n),
            q,
            i,
        ) == Scan::Ends(e)),
    decreases s.len() - i,
{
    if i < s.len() && s[i] != q && s[i] == '\\' && escape_fits(s, i) {
        lemma_quoted_prefix(s, n, q, i + escape_width(s[i + 1]));
    } else if i < s.len() && s[i] != q && s[i] != '\\' {
        lemma_quoted_prefix(s, n, q, i + 1);
    }
}

proof fn lemma_triple_prefix(s: Seq<char>, n: int, q: char, i: int)
    requires
        0 <= i <= s.len(),
        0 <= n <= s.len(),
    ensures
        triple_from(s, q, i) matches Scan::Ends(e) ==> i < e <= s.len() && (e <= n ==> triple_from(
            s.subrange(0, n),
            q,
            i,
        ) == Scan::Ends(e)),
    decreases s.len() - i,
{
    if i < s.len() && !triple_at(s, q, i) && s[i] == '\\' && escape_fits(s, i) {
        lemma_triple_prefix(s, n, q, i + escape_width(s[i + 1]));
    } else if i < s.len() && !triple_at(s, q, i) && s[i] != '\\' {
        lemma_triple_prefix(s, n, q, i + 1);
    }
}

proof fn lemma_block_prefix(s: Seq<char>, n: int, i: int)
    requires
        0 <= i <= s.len(),
        0 <= n <= s.len(),
    ensures
        block_from(s, i) matches Scan::Ends(e) ==> i < e <= s.len() && (e <= n ==> block_from(
            s.subrange(0, n),
            i,
        ) == Scan::Ends(e)),
    decreases s.len() - i,
{
    if i < s.len() && !(i + 1 < s.len() && s[i] == '*' && s[i + 1] == '/') {
        lemma_block_prefix(s, n, i + 1);
    }
}

proof fn lemma_number_prefix(s: Seq<char>, n: int, p: int)
    requires
        0 <= p <= n <= s.len(),
    ensures
        p <= number_end(s, p) <= s.len(),
        at(s, p) == Some('.') || (at(s, p) matches Some(c) && digit(c)) ==> p < number_end(s, p),
        number_end(s, p) <= n ==> number_end(s.subrange(0, n), p) == number_end(s, p),
{
    let a = digits_end(s, p);
    lemma_digits_end_prefix(s, n, p);
    let b = if at(s, a) == Some('.') {
        lemma_digits_end_prefix(s, n, a + 1);
        digits_end(s, a + 1)
    } else {
        a
    };
    if b + 1 <= s.len() {
        lemma_digits_end_prefix(s, n, b + 1);
    }
    if b + 2 <= s.len() {
        lemma_digits_end_prefix(s, n, b + 2);
    }
}

proof fn lemma_trim_prefix(s: Seq<char>, n: int, lo: int, e: int)
    requires
        0 <= lo <= e <= n <= s.len(),
    ensures
        trim_end(s.subrange(0, n), lo, e) == trim_end(s, lo, e),
    decreases e - lo,
{
    if lo < e && white_space(s[e - 1]) {
        lemma_trim_prefix(s, n, lo, e - 1);
    }
}

proof fn lemma_trim_mid(s: Seq<char>, lo: int, m: int, e: int)
    requires
        0 <= lo <= m <= e <= s.len(),
        trim_end(s, lo, e) <= m,
    ensures
        trim_end(s, lo, m) == trim_end(s, lo, e),
    decreases e - m,
{
    if m < e {
        lemma_trim_mid(s, lo, m, e - 1);
    }
}

proof fn lemma_ws_end(s: Seq<char>, i: int)
    requires
        0 <= i <= s.len(),
    ensures
        i <= ws_end(s, i) <= s.len(),
        all_white(s, i, ws_end(s, i)),
        ws_end(s, i) < s.len() ==> !white_space(s[ws_end(s, i)]),
    decreases s.len() - i,
{
    if i < s.len() && white_space(s[i]) {
        lemma_ws_end(s, i + 1);
    }
}

proof fn lemma_trim_end(s: Seq<char>, lo: int, e: int)
    requires
        0 <= lo <= e <= s.len(),
    ensures
        lo <= trim_end(s, lo, e) <= e,
        all_white(s, trim_end(s, lo, e), e),
    decreases e - lo,
{
    if lo < e && white_space(s[e - 1]) {
        lemma_trim_end(s, lo, e - 1);
    }
}

/// A scan that succeeds from `p` yields at least the end-of-stream token, and
/// the text from `p` on is its literals, each behind a run of whitespace.
proof fn lemma_split_from(s: Seq<char>, p: int, d: nat, a: bool) -> (gaps: Seq<Seq<char>>)
    requires
        0 <= p <= s.len(),
        lex_from(s, p, d, a) is Ok,
    ensures
        gaps.len() == lex_from(s, p, d, a)->Ok_0.len() >= 1,
        white_gaps(gaps),
        s.subrange(p, s.len() as int) == interleave(gaps, lex_from(s, p, d, a)->Ok_0),
    decreases s.len() - p,
{
    let ts = lex_from(s, p, d, a)->Ok_0;
    let q = ws_end(s, p);
    lemma_ws_end(s, p);
    let n = s.len() as int;
    if q >= n {
        let gaps = seq![s.subrange(p, n)];
        assert(ts == seq![token_of(s, n, n)]);
        assert(s.subrange(n, n) =~= Seq::<char>::empty());
        assert(interleave(gaps.drop_first(), ts.drop_first()) == Seq::<char>::empty());
        assert(s.subrange(p, n) =~= interleave(gaps, ts));
        assert(white_gaps(gaps)) by {
            assert forall|k: int| 0 <= k < gaps.len() implies all_white(
                #[trigger] gaps[k],
                0,
                gaps[k].len() as int,
            ) by {
                assert forall|i: int| 0 <= i < gaps[k].len() implies white_space(
                    #[trigger] gaps[k][i],
                ) by {
                    assert(gaps[k][i] == s[p + i]);
                }
            }
        }
        gaps
    } else {
        let (r, d2) = step(s, q, d, a);
        let e = r->Ends_0;
        let t = literal_end(s, q, e);
        let a2 = crate::grammar::opens_type(s.subrange(q, t));
        let rest = lex_from(s, e, d2, a2)->Ok_0;
        let g = lemma_split_from(s, e, d2, a2);
        if line_comment_at(s, q) {
            lemma_trim_end(s, q, e);
        }
        assert(q <= t <= e);
        assert(all_white(s, t, e));
        let first = s.subrange(p, q);
        let second = s.subrange(t, e) + g[0];
        let gaps = seq![first, second] + g.drop_first();
        assert(ts == seq![token_of(s, q, t)] + rest);
        assert(gaps.drop_first() =~= seq![second] + g.drop_first());
        assert(ts.drop_first() =~= rest);
        assert(interleave(g, rest) == g[0] + rest[0].literal + interleave(
            g.drop_first(),
            rest.drop_first(),
        ));
        assert(interleave(gaps.drop_first(), rest) == second + rest[0].literal + interleave(
            g.drop_first(),
            rest.drop_first(),
        )) by {
            assert((seq![second] + g.drop_first()).drop_first() =~= g.drop_first());
        }
        assert(s.subrange(p, n) =~= first + s.subrange(q, t) + s.subrange(t, e) + s.subrange(e, n));
        assert(white_gaps(gaps)) by {
            assert forall|k: int| 0 <= k < gaps.len() implies all_white(
                #[trigger] gaps[k],
                0,
                gaps[k].len() as int,
            ) by {
                if k == 0 {
                    assert forall|i: int| 0 <= i < first.len() implies white_space(
                        #[trigger] first[i],
                    ) by {
                        assert(first[i] == s[p + i]);
                    }
                } else if k == 1 {
                    assert(all_white(g[0], 0, g[0].len() as int));
                    assert forall|i: int| 0 <= i < second.len() implies white_space(
                        #[trigger] second[i],
                    ) by {
                        if i < e - t {
                            assert(second[i] == s[t + i]);
                        } else {
                            assert(second[i] == g[0][i - (e - t)]);
                        }
                    }
                } else {
                    assert(gaps[k] == g[k - 1]);
                }
            }
        }
        assert(s.subrange(p, n) =~= interleave(gaps, ts));
        gaps
    }
}

/// A text of whitespace alone scans to the end-of-stream token alone, with an
/// empty literal, placed after the last character.
pub proof fn lemma_whitespace_only(s: Seq<char>)
    requires
        all_white(s, 0, s.len() as int),
    ensures
        tokenized(s) == Ok::<Seq<TokenView>, crate::grammar::ErrorView>(
            seq![token_of(s, s.len() as int, s.len() as int)],
        ),
        tokenized(s)->Ok_0.len() == 1,
        tokenized(s)->Ok_0[0].literal.len() == 0,
{
    lemma_all_white_skips(s, 0);
    let n = s.len() as int;
    assert(s.subrange(n, n) =~= Seq::<char>::empty());
}

proof fn lemma_all_white_skips(s: Seq<char>, i: int)
    requires
        0 <= i <= s.len(),
        all_white(s, i, s.len() as int),
    ensures
        ws_end(s, i) == s.len(),
    decreases s.len() - i,
{
    if i < s.len() {
        lemma_all_white_skips(s, i + 1);
    }
}

/// A successful scan accounts for the whole text: it is the token literals in
/// order, each preceded by a run of whitespace that produced no token.
pub proof fn lemma_reconstruct(s: Seq<char>)
    requires
        tokenized(s) is Ok,
    ensures
        exists|gaps: Seq<Seq<char>>|
            {
                &&& gaps.len() == tokenized(s)->Ok_0.len()
                &&& white_gaps(gaps)
                &&& s == interleave(gaps, tokenized(s)->Ok_0)
            },
{
    let gaps = lemma_split_from(s, 0, 0, false);
    assert(s.subrange(0, s.len() as int) =~= s);
}

/// Where the literal of each token of a scan from `p` ends, the end-of-stream
/// token included.
pub open spec fn ends_from(s: Seq<char>, p: int, depth: nat, after_type: bool) -> Seq<int>
    decreases s.len() - p,
{
    let q = ws_end(s, p);
    if q < 0 || q >= s.len() {
        seq![s.len() as int]
    } else {
        match step(s, q, depth, after_type) {
            (Scan::Ends(e), d) => {
                if p <= q < e <= s.len() {
                    let t = literal_end(s, q, e);
                    seq![t] + ends_from(s, e, d, opens_type(s.subrange(q, t)))
                } else {
                    seq![]
                }
            },
            _ => seq![],
        }
    }
}

/// Where the literal of each token of the whole text ends.
pub open spec fn token_ends(s: Seq<char>) -> Seq<int> {
    ends_from(s, 0, 0, false)
}

proof fn lemma_line_col_prefix(s: Seq<char>, n: int, p: int)
    requires
        0 <= p <= n <= s.len(),
    ensures
        line_col(s.subrange(0, n), p) == line_col(s, p),
    decreases p,
{
    if p > 0 {
        lemma_line_col_prefix(s, n, p - 1);
    }
}

/// A token that ends within the first `n` characters is scanned alike when
/// the text is cut after them.
#[verifier::rlimit(60)]
proof fn lemma_step_prefix(s: Seq<char>, n: int, q: int, d: nat, a: bool)
    requires
        0 <= q < n <= s.len(),
        !white_space(s[q]),
        step(s, q, d, a).0 matches Scan::Ends(e) && literal_end(s, q, e) <= n,
    ensures
        q < literal_end(s, q, step(s, q, d, a).0->Ends_0),
        step(s.subrange(0, n), q, d, a).1 == step(s, q, d, a).1,
        step(s.subrange(0, n), q, d, a).0 matches Scan::Ends(e2) && q < e2 <= n,
        literal_end(s.subrange(0, n), q, step(s.subrange(0, n), q, d, a).0->Ends_0) == literal_end(
            s,
            q,
            step(s, q, d, a).0->Ends_0,
        ),
        step(s, q, d, a).0->Ends_0 <= n ==> step(s.subrange(0, n), q, d, a).0->Ends_0 == step(
            s,
            q,
            d,
            a,
        ).0->Ends_0,
{
    reveal(step);
    let s2 = s.subrange(0, n);
    lemma_number_prefix(s, n, q);
    lemma_line_end_prefix(s, n, q);
    let le = line_end(s, q);
    lemma_trim_end(s, q, le);
    lemma_line_end_prefix(s2, n, q);
    lemma_trim_end(s2, q, line_end(s2, q));
    if le <= n {
        lemma_trim_prefix(s, n, q, le);
    } else if trim_end(s, q, le) <= n {
        lemma_trim_mid(s, q, n, le);
        lemma_trim_prefix(s, n, q, n);
    }
    lemma_quoted_prefix(s, n, s[q], q + 1);
    if q + 3 <= s.len() {
        lemma_triple_prefix(s, n, s[q], q + 3);
    }
    lemma_block_prefix(s, n, q);
    lemma_ats_end_prefix(s, n, q);
    let ae = ats_end(s, q);
    if ae + 1 <= s.len() {
        lemma_quoted_prefix(s, n, '`', ae + 1);
        lemma_ident_end_prefix(s, n, ae + 1);
    }
    lemma_ident_end_prefix(s, n, q + 1);
    lemma_digits_end_prefix(s, n, q + 1);
    lemma_line_end_prefix(s, n, q + 1);
    if le > q && trim_end(s, q, le) == q {
        assert(white_space(s[q]));
    }
    if le > q + 1 && trim_end(s, q, le) == q + 1 {
        assert(white_space(s[q + 1]));
    }
}

proof fn lemma_ends(s: Seq<char>, p: int, d: nat, a: bool)
    requires
        0 <= p <= s.len(),
        lex_from(s, p, d, a) is Ok,
    ensures
        ends_from(s, p, d, a).len() == lex_from(s, p, d, a)->Ok_0.len(),
        forall|j: int|
            0 <= j < ends_from(s, p, d, a).len() ==> p <= #[trigger] ends_from(s, p, d, a)[j]
                <= s.len(),
    decreases s.len() - p,
{
    let q = ws_end(s, p);
    lemma_ws_end(s, p);
    if q < s.len() {
        let (r, d2) = step(s, q, d, a);
        let e = r->Ends_0;
        let t = literal_end(s, q, e);
        lemma_ends(s, e, d2, opens_type(s.subrange(q, t)));
        if line_comment_at(s, q) {
            lemma_trim_end(s, q, e);
        }
    }
}

proof fn lemma_lex_prefix(s: Seq<char>, n: int, p: int, d: nat, a: bool, k: int)
    requires
        0 <= p <= s.len(),
        lex_from(s, p, d, a) is Ok,
        0 <= k < lex_from(s, p, d, a)->Ok_0.len() - 1,
        n == ends_from(s, p, d, a)[k],
    ensures
        lex_from(s.subrange(0, n), p, d, a) is Ok,
        lex_from(s.subrange(0, n), p, d, a)->Ok_0.len() == k + 2,
        forall|j: int|
            0 <= j <= k ==> #[trigger] lex_from(s.subrange(0, n), p, d, a)->Ok_0[j] == lex_from(
                s,
                p,
                d,
                a,
            )->Ok_0[j],
    decreases s.len() - p,
{
    let s2 = s.subrange(0, n);
    let ts = lex_from(s, p, d, a)->Ok_0;
    lemma_ends(s, p, d, a);
    let q = ws_end(s, p);
    lemma_ws_end(s, p);
    let (r, d2) = step(s, q, d, a);
    let e = r->Ends_0;
    let t = literal_end(s, q, e);
    let a2 = opens_type(s.subrange(q, t));
    let rest = lex_from(s, e, d2, a2)->Ok_0;
    lemma_ends(s, e, d2, a2);
    if k > 0 {
        assert(n == ends_from(s, e, d2, a2)[k - 1]);
    }
    if line_comment_at(s, q) {
        lemma_trim_end(s, q, e);
    }
    assert(t <= n);
    lemma_ws_end_prefix(s, n, p);
    lemma_step_prefix(s, n, q, d, a);
    let e2 = step(s2, q, d, a).0->Ends_0;
    lemma_line_col_prefix(s, n, q);
    assert(s2.subrange(q, t) =~= s.subrange(q, t));
    assert(token_of(s2, q, t) == token_of(s, q, t));
    if k == 0 {
        if line_comment_at(s2, q) {
            lemma_trim_end(s2, q, e2);
        }
        assert(e2 == n);
        let eof = lex_from(s2, e2, d2, a2);
        assert(eof == Ok::<Seq<TokenView>, crate::grammar::ErrorView>(seq![token_of(s2, n, n)]));
        let ts2 = lex_from(s2, p, d, a)->Ok_0;
        assert(ts2 == seq![token_of(s2, q, t)] + seq![token_of(s2, n, n)]);
    } else {
        lemma_lex_prefix(s, n, e, d2, a2, k - 1);
        let rest2 = lex_from(s2, e, d2, a2)->Ok_0;
        let ts2 = lex_from(s2, p, d, a)->Ok_0;
        assert(ts2 == seq![token_of(s2, q, t)] + rest2);
        assert forall|j: int| 0 <= j <= k implies #[trigger] ts2[j] == ts[j] by {
            if j > 0 {
                assert(ts2[j] == rest2[j - 1]);
                assert(ts[j] == rest[j - 1]);
            }
        }
    }
}

/// Cutting the text right after a token's literal and scanning again gives
/// every token up to that one with the same position and literal, followed by
/// the end-of-stream token.
pub proof fn lemma_prefix_positions(s: Seq<char>, k: int)
    requires
        tokenized(s) is Ok,
        0 <= k < tokenized(s)->Ok_0.len() - 1,
    ensures
        token_ends(s).len() == tokenized(s)->Ok_0.len(),
        tokenized(s.subrange(0, token_ends(s)[k])) is Ok,
        tokenized(s.subrange(0, token_ends(s)[k]))->Ok_0.len() == k + 2,
        forall|j: int|
            0 <= j <= k ==> #[trigger] tokenized(s.subrange(0, token_ends(s)[k]))->Ok_0[j]
                == tokenized(s)->Ok_0[j],
{
    lemma_ends(s, 0, 0, false);
    lemma_lex_prefix(s, token_ends(s)[k], 0, 0, false, k);
}

} // verus!
