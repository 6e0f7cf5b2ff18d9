use vstd::prelude::*;
use vstd::std_specs::iter::IteratorSpec;

verus! {

/// The fixed delimiter set: `(`, `)`, space and newline.
pub open spec fn is_delim(c: char) -> bool {
    c == '(' || c == ')' || c == ' ' || c == '\n'
}

/// Characters that denote whitespace or s-expression boundaries.
pub fn is_terminal(c: char) -> (r: bool)
    ensures
        r == is_delim(c),
{
    match c {
        '(' | ')' | ' ' | '\n' => true,
        _ => false,
    }
}

/// The characters that end a run and stand as tokens of their own: the
/// standard set, and tab where `tab` holds.
#[derive(Clone, Copy, Debug, PartialEq, Eq)]
pub struct Delimiters {
    pub tab: bool,
}

/// Membership in a delimiter set.
pub open spec fn is_delim_in(d: Delimiters, c: char) -> bool {
    is_delim(c) || (d.tab && c == '\t')
}

impl Delimiters {
    /// The standard set: `(`, `)`, space and newline.
    pub fn standard() -> (r: Delimiters)
        ensures
            r == (Delimiters { tab: false }),
    {
        Delimiters { tab: false }
    }

    /// The standard set and tab.
    pub fn with_tab() -> (r: Delimiters)
        ensures
            r == (Delimiters { tab: true }),
    {
        Delimiters { tab: true }
    }

    /// Whether `c` belongs to this set.
    pub fn contains(&self, c: char) -> (r: bool)
        ensures
            r == is_delim_in(*self, c),
    {
        is_terminal(c) || (self.tab && c == '\t')
    }
}

/// A lexical token: one delimiter character, or a run of other characters.
#[derive(Clone, Debug, PartialEq)]
pub enum Token {
    Char(char),
    Str(String),
}

/// The mathematical model of a [`Token`].
pub enum TokenView {
    Char(char),
    Str(Seq<char>),
}

impl View for Token {
    type V = TokenView;

    open spec fn view(&self) -> TokenView {
        match self {
            Token::Char(c) => TokenView::Char(*c),
            Token::Str(s) => TokenView::Str(s@),
        }
    }
}

/// The models of a sequence of tokens.
pub open spec fn tokens_view(ts: Seq<Token>) -> Seq<TokenView> {
    ts.map_values(|t: Token| t@)
}

/// The source text that a token stands for.
pub open spec fn token_text(t: TokenView) -> Seq<char> {
    match t {
        TokenView::Char(c) => seq![c],
        TokenView::Str(s) => s,
    }
}

/// The texts of a token sequence, concatenated in order.
pub open spec fn concat_text(ts: Seq<TokenView>) -> Seq<char>
    decreases ts.len(),
{
    if ts.len() == 0 {
        Seq::empty()
    } else {
        concat_text(ts.drop_last()) + token_text(ts.last())
    }
}

/// A non-empty sequence of characters none of which is a delimiter.
pub open spec fn is_run(d: Delimiters, s: Seq<char>) -> bool {
    s.len() > 0 && forall|i: int| 0 <= i < s.len() ==> !is_delim_in(d, #[trigger] s[i])
}

/// A character token holds a delimiter; a run token holds a run.
pub open spec fn token_ok(d: Delimiters, t: TokenView) -> bool {
    match t {
        TokenView::Char(c) => is_delim_in(d, c),
        TokenView::Str(s) => is_run(d, s),
    }
}

/// No two run tokens stand next to each other: every run is maximal.
pub open spec fn runs_maximal(ts: Seq<TokenView>) -> bool {
    forall|k: int| 0 <= k < ts.len() - 1 ==> !(#[trigger] ts[k] is Str && ts[k + 1] is Str)
}

/// `ts` is the lexing of `s` over the standard delimiter set.
pub open spec fn is_lexing(ts: Seq<TokenView>, s: Seq<char>) -> bool {
    is_lexing_in(Delimiters { tab: false }, ts, s)
}

/// `ts` is the lexing of `s` over `d`: its texts spell `s`, each delimiter stands alone,
/// and the characters between delimiters form maximal runs.
pub open spec fn is_lexing_in(d: Delimiters, ts: Seq<TokenView>, s: Seq<char>) -> bool {
    &&& concat_text(ts) == s
    &&& forall|k: int| 0 <= k < ts.len() ==> token_ok(d, #[trigger] ts[k])
    &&& runs_maximal(ts)
}

proof fn lemma_lexing_prefix(d: Delimiters, ts: Seq<TokenView>, s: Seq<char>)
    requires
        is_lexing_in(d, ts, s),
        ts.len() > 0,
    ensures
        is_lexing_in(d, ts.drop_last(), concat_text(ts.drop_last())),
        s == concat_text(ts.drop_last()) + token_text(ts.last()),
        token_ok(d, ts.last()),
        token_text(ts.last()).len() > 0,
        s.len() > 0,
        s.last() == token_text(ts.last()).last(),
{
    let p = ts.drop_last();
    assert forall|k: int| 0 <= k < p.len() implies token_ok(d, #[trigger] p[k]) by {
        assert(p[k] == ts[k]);
    }
    assert forall|k: int| 0 <= k < p.len() - 1 implies !(#[trigger] p[k] is Str && p[k + 1] is Str) by {
        assert(p[k] == ts[k]);
        assert(p[k + 1] == ts[k + 1]);
    }
    assert(token_ok(d, ts[ts.len() - 1]));
}

/// A text has at most one lexing over a given delimiter set: the contract of
/// [`tokenize_with`] fixes its result.
pub proof fn lemma_lexing_unique(d: Delimiters, a: Seq<TokenView>, b: Seq<TokenView>, s: Seq<char>)
    requires
        is_lexing_in(d, a, s),
        is_lexing_in(d, b, s),
    ensures
        a == b,
    decreases a.len(),
{
    if a.len() == 0 {
        if b.len() > 0 {
            lemma_lexing_prefix(d, b, s);
        }
        assert(a =~= b);
    } else if b.len() == 0 {
        lemma_lexing_prefix(d, a, s);
    } else {
        lemma_lexing_prefix(d, a, s);
        lemma_lexing_prefix(d, b, s);
        let pa = a.drop_last();
        let pb = b.drop_last();
        let ta = a.last();
        let tb = b.last();
        let xa = token_text(ta);
        let xb = token_text(tb);
        if is_delim_in(d, s.last()) {
            if let TokenView::Str(r) = ta {
                assert(!is_delim_in(d, r[r.len() - 1]));
            }
            if let TokenView::Str(r) = tb {
                assert(!is_delim_in(d, r[r.len() - 1]));
            }
        } else {
            assert(ta is Str);
            assert(tb is Str);
            lemma_last_runs_agree(d, a, b, s);
            lemma_last_runs_agree(d, b, a, s);
            assert(xa =~= s.subrange(s.len() - xa.len(), s.len() as int));
            assert(xb =~= s.subrange(s.len() - xb.len(), s.len() as int));
        }
        assert(ta == tb);
        assert(concat_text(pa) =~= s.subrange(0, s.len() - xa.len()));
        assert(concat_text(pb) =~= s.subrange(0, s.len() - xb.len()));
        lemma_lexing_unique(d, pa, pb, concat_text(pa));
        assert(a =~= pa.push(ta));
        assert(b =~= pb.push(tb));
    }
}

proof fn lemma_last_runs_agree(d: Delimiters, a: Seq<TokenView>, b: Seq<TokenView>, s: Seq<char>)
    requires
        is_lexing_in(d, a, s),
        is_lexing_in(d, b, s),
        a.len() > 0,
        b.len() > 0,
        a.last() is Str,
        b.last() is Str,
    ensures
        token_text(a.last()).len() >= token_text(b.last()).len(),
{
    lemma_lexing_prefix(d, a, s);
    lemma_lexing_prefix(d, b, s);
    let pa = a.drop_last();
    let xa = token_text(a.last());
    let xb = token_text(b.last());
    if xa.len() < xb.len() {
        let i = s.len() - xa.len() - 1;
        assert(concat_text(pa).len() > 0);
        if pa.len() == 0 {
            assert(concat_text(pa).len() == 0);
        }
        lemma_lexing_prefix(d, pa, concat_text(pa));
        assert(pa.last() == a[a.len() - 2]);
        assert(!(a[a.len() - 2] is Str && a[a.len() - 1] is Str));
        assert(s[i] == concat_text(pa).last());
        let j = xb.len() - xa.len() - 1;
        assert(s[i] == xb[j]);
        assert(!is_delim_in(d, xb[j]));
    }
}

/// Relies on String::push: appends one character.
#[verifier::external_body]
fn push_char(s: &mut String, c: char)
    ensures
        final(s)@ == old(s)@.push(c),
{
    s.push(c)
}

/// The characters of `s`, in order.
pub(crate) fn chars_of(s: &str) -> (r: Vec<char>)
    ensures
        r@ == s@,
{
    broadcast use vstd::string::group_string_axioms;

    let mut it = s.chars();
    let mut r: Vec<char> = Vec::new();
    loop
        invariant
            it.obeys_prophetic_iter_laws(),
            r@ + it.remaining() == s@,
        ensures
            r@ == s@,
        decreases s@.len() - r@.len(),
    {
        match it.next() {
            Some(c) => {
                proof {
                    assert(r@.push(c) + it.remaining() =~= s@);
                }
                r.push(c);
            },
            None => {
                assert(r@ + it.remaining() =~= r@);
                break ;
            },
        }
    }
    r
}

proof fn lemma_concat_push(ts: Seq<TokenView>, t: TokenView)
    ensures
        concat_text(ts.push(t)) == concat_text(ts) + token_text(t),
{
    assert(ts.push(t).drop_last() =~= ts);
}

/// Splits `s` into tokens over the standard delimiter set.
pub fn tokenize(s: String) -> (r: Vec<Token>)
    ensures
        is_lexing(tokens_view(r@), s@),
        concat_text(tokens_view(r@)) == s@,
{
    tokenize_with(s, Delimiters::standard())
}

/// Splits `s` into tokens: each character of `d` becomes a `Char` token of
/// its own, and each maximal run of other characters becomes one `Str` token.
pub fn tokenize_with(s: String, d: Delimiters) -> (r: Vec<Token>)
    ensures
        is_lexing_in(d, tokens_view(r@), s@),
        concat_text(tokens_view(r@)) == s@,
{
    let cs = chars_of(s.as_str());
    let n = cs.len();
    let mut results: Vec<Token> = Vec::new();
    let mut buffer = String::new();
    let mut i: usize = 0;
    while i < n
        invariant
            cs@ == s@,
            n == cs@.len(),
            i <= n,
            concat_text(tokens_view(results@)) + buffer@ == s@.take(i as int),
            forall|k: int| 0 <= k < results@.len() ==> token_ok(d, #[trigger] results@[k]@),
            runs_maximal(tokens_view(results@)),
            forall|k: int| 0 <= k < buffer@.len() ==> !is_delim_in(d, #[trigger] buffer@[k]),
            buffer@.len() > 0 ==> i < n && !is_delim_in(d, s@[i as int]),
            results@.len() > 0 && results@.last() is Str ==> buffer@.len() == 0 && (i == n
                || is_delim_in(d, s@[i as int])),
        decreases n - i,
    {
        let c = cs[i];
        let ghost old_results = results@;
        assert(s@.take(i + 1) =~= s@.take(i as int).push(c));
        if d.contains(c) {
            results.push(Token::Char(c));
            proof {
                assert(tokens_view(results@) =~= tokens_view(old_results).push(TokenView::Char(c)));
                lemma_concat_push(tokens_view(old_results), TokenView::Char(c));
            }
        } else {
            push_char(&mut buffer, c);
            let flush = i + 1 == n || d.contains(cs[i + 1]);
            if flush {
                let run = buffer;
                buffer = String::new();
                let ghost run_view = run@;
                results.push(Token::Str(run));
                proof {
                    assert(tokens_view(results@) =~= tokens_view(old_results).push(
                        TokenView::Str(run_view),
                    ));
                    lemma_concat_push(tokens_view(old_results), TokenView::Str(run_view));
                }
            }
        }
        i = i + 1;
    }
    assert(s@.take(n as int) =~= s@);
    results
}

} // verus!
