use vstd::prelude::*;

verus! {

/// What the scanner knows between two characters of a line.
pub struct ScanState {
    pub in_single: bool,
    pub in_double: bool,
    pub escape_next: bool,
    pub token: Seq<char>,
    pub out: Seq<Seq<char>>,
}

/// The state in which every line starts.
pub open spec fn initial_state() -> ScanState {
    ScanState { in_single: false, in_double: false, escape_next: false, token: seq![], out: seq![] }
}

/// A state outside any quoted span and with no pending escape.
pub open spec fn is_plain(st: ScanState) -> bool {
    !st.in_single && !st.in_double && !st.escape_next
}

pub open spec fn with_char(st: ScanState, c: char) -> ScanState {
    ScanState { token: st.token.push(c), ..st }
}

/// The tokens of a state, with its pending token flushed when it is non-empty.
pub open spec fn flushed(st: ScanState) -> Seq<Seq<char>> {
    if st.token.len() > 0 {
        st.out.push(st.token)
    } else {
        st.out
    }
}

/// A character with no meaning to the scanner outside quotes.
pub open spec fn is_plain_char(c: char) -> bool {
    c != ' ' && c != '"' && c != '\'' && c != '\\'
}

/// One move of the scanner at position `i` of `s`: the next state, and the
/// position after the characters it consumed (one, or two for an escape
/// inside double quotes).
pub open spec fn step(s: Seq<char>, i: int, st: ScanState) -> (ScanState, int) {
    let c = s[i];
    if st.escape_next {
        (ScanState { escape_next: false, ..with_char(st, c) }, i + 1)
    } else if c == '\\' {
        if st.in_single {
            (with_char(st, '\\'), i + 1)
        } else if st.in_double {
            if i + 1 < s.len() && (s[i + 1] == '"' || s[i + 1] == '\\') {
                (with_char(st, s[i + 1]), i + 2)
            } else {
                (with_char(st, '\\'), i + 1)
            }
        } else {
            (ScanState { escape_next: true, ..st }, i + 1)
        }
    } else if c == ' ' {
        if st.in_single || st.in_double {
            (with_char(st, c), i + 1)
        } else {
            (ScanState { token: seq![], out: flushed(st), ..st }, i + 1)
        }
    } else if c == '"' {
        if st.in_single {
            (with_char(st, c), i + 1)
        } else {
            (ScanState { in_double: !st.in_double, ..st }, i + 1)
        }
    } else if c == '\'' {
        if st.in_double {
            (with_char(st, c), i + 1)
        } else {
            (ScanState { in_single: !st.in_single, ..st }, i + 1)
        }
    } else {
        (with_char(st, c), i + 1)
    }
}

/// The tokens produced by scanning `s` from position `i` in state `st` to the end.
pub open spec fn scan(s: Seq<char>, i: int, st: ScanState) -> Seq<Seq<char>>
    decreases s.len() - i,
{
    if i < 0 || i >= s.len() {
        flushed(st)
    } else {
        let (next, j) = step(s, i, st);
        scan(s, j, next)
    }
}

/// The tokens of a line.
pub open spec fn tokens_of(s: Seq<char>) -> Seq<Seq<char>> {
    scan(s, 0, initial_state())
}

/// Every token of a sequence is non-empty.
pub open spec fn all_non_empty(ts: Seq<Seq<char>>) -> bool {
    forall|k: int| 0 <= k < ts.len() ==> #[trigger] ts[k].len() > 0
}

/// Words separated by single spaces.
pub open spec fn join_words(ws: Seq<Seq<char>>) -> Seq<char>
    decreases ws.len(),
{
    if ws.len() == 0 {
        seq![]
    } else if ws.len() == 1 {
        ws[0]
    } else {
        ws[0] + seq![' '] + join_words(ws.drop_first())
    }
}

pub proof fn lemma_join_push(ws: Seq<Seq<char>>, w: Seq<char>)
    ensures
        join_words(ws.push(w)) == if ws.len() == 0 {
            w
        } else {
            join_words(ws) + seq![' '] + w
        },
    decreases ws.len(),
{
    if ws.len() == 0 {
        assert(ws.push(w).len() == 1);
    } else if ws.len() == 1 {
        assert(ws.push(w).drop_first() =~= seq![w]);
        assert(join_words(seq![w]) == w);
        assert(join_words(ws) == ws[0]);
        assert(ws.push(w)[0] == ws[0]);
    } else {
        assert(ws.push(w)[0] == ws[0]);
        assert(ws.push(w).drop_first() =~= ws.drop_first().push(w));
        lemma_join_push(ws.drop_first(), w);
        assert(join_words(ws.push(w)) =~= join_words(ws) + seq![' '] + w);
    }
}

pub proof fn lemma_scan_non_empty(s: Seq<char>, i: int, st: ScanState)
    requires
        all_non_empty(st.out),
    ensures
        all_non_empty(scan(s, i, st)),
    decreases s.len() - i,
{
    if i < 0 || i >= s.len() {
    } else {
        let (next, j) = step(s, i, st);
        assert(all_non_empty(next.out));
        lemma_scan_non_empty(s, j, next);
    }
}

/// No token of any line is empty.
pub proof fn lemma_tokens_non_empty(s: Seq<char>)
    ensures
        all_non_empty(tokens_of(s)),
{
    lemma_scan_non_empty(s, 0, initial_state());
}

/// Scanning the tail of `a + b` is scanning `b`.
pub proof fn lemma_scan_shift(a: Seq<char>, b: Seq<char>, i: int, st: ScanState)
    requires
        0 <= i,
    ensures
        scan(a + b, a.len() + i, st) == scan(b, i, st),
    decreases b.len() - i,
{
    let s = a + b;
    if i < b.len() {
        assert(s[a.len() + i] == b[i]);
        if i + 1 < b.len() {
            assert(s[a.len() + i + 1] == b[i + 1]);
        }
        let (nb, jb) = step(b, i, st);
        let (ns, js) = step(s, a.len() + i, st);
        assert(ns == nb && js == a.len() + jb);
        lemma_scan_shift(a, b, jb, nb);
    }
}

/// The tokens already emitted stay in front of all that follow.
pub proof fn lemma_scan_out(s: Seq<char>, i: int, st: ScanState)
    ensures
        scan(s, i, st) == st.out + scan(s, i, ScanState { out: seq![], ..st }),
    decreases s.len() - i,
{
    let st0 = ScanState { out: seq![], ..st };
    if i < 0 || i >= s.len() {
        assert(flushed(st) =~= st.out + flushed(st0));
    } else {
        let (n, j) = step(s, i, st);
        let (n0, j0) = step(s, i, st0);
        assert(flushed(st) =~= st.out + flushed(st0));
        assert(j == j0);
        assert(n.out =~= st.out + n0.out);
        assert(ScanState { out: seq![], ..n } == ScanState { out: seq![], ..n0 });
        lemma_scan_out(s, j, n);
        lemma_scan_out(s, j0, n0);
        assert(scan(s, i, st) =~= st.out + scan(s, i, st0));
    }
}

/// Outside quotes, a run of ordinary characters joins the pending token.
pub proof fn lemma_plain_run(s: Seq<char>, i: int, j: int, st: ScanState)
    requires
        is_plain(st),
        0 <= i <= j <= s.len(),
        forall|k: int| i <= k < j ==> is_plain_char(#[trigger] s[k]),
    ensures
        scan(s, i, st) == scan(s, j, ScanState { token: st.token + s.subrange(i, j), ..st }),
    decreases j - i,
{
    if i == j {
        assert(st.token + s.subrange(i, j) =~= st.token);
        assert(ScanState { token: st.token + s.subrange(i, j), ..st } == st);
    } else {
        let next = with_char(st, s[i]);
        assert(step(s, i, st) == (next, i + 1));
        lemma_plain_run(s, i + 1, j, next);
        assert(next.token + s.subrange(i + 1, j) =~= st.token + s.subrange(i, j));
    }
}

/// Inside single quotes, every character but a single quote joins the
/// pending token as it is.
pub proof fn lemma_single_run(s: Seq<char>, i: int, j: int, st: ScanState)
    requires
        st.in_single && !st.in_double && !st.escape_next,
        0 <= i <= j <= s.len(),
        forall|k: int| i <= k < j ==> #[trigger] s[k] != '\'',
    ensures
        scan(s, i, st) == scan(s, j, ScanState { token: st.token + s.subrange(i, j), ..st }),
    decreases j - i,
{
    if i == j {
        assert(st.token + s.subrange(i, j) =~= st.token);
        assert(ScanState { token: st.token + s.subrange(i, j), ..st } == st);
    } else {
        let next = with_char(st, s[i]);
        assert(step(s, i, st) == (next, i + 1));
        lemma_single_run(s, i + 1, j, next);
        assert(next.token + s.subrange(i + 1, j) =~= st.token + s.subrange(i, j));
    }
}

/// Inside double quotes, every character but a double quote or a backslash
/// joins the pending token as it is.
pub proof fn lemma_double_run(s: Seq<char>, i: int, j: int, st: ScanState)
    requires
        st.in_double && !st.in_single && !st.escape_next,
        0 <= i <= j <= s.len(),
        forall|k: int| i <= k < j ==> #[trigger] s[k] != '"' && s[k] != '\\',
    ensures
        scan(s, i, st) == scan(s, j, ScanState { token: st.token + s.subrange(i, j), ..st }),
    decreases j - i,
{
    if i == j {
        assert(st.token + s.subrange(i, j) =~= st.token);
        assert(ScanState { token: st.token + s.subrange(i, j), ..st } == st);
    } else {
        let next = with_char(st, s[i]);
        assert(step(s, i, st) == (next, i + 1));
        lemma_double_run(s, i + 1, j, next);
        assert(next.token + s.subrange(i + 1, j) =~= st.token + s.subrange(i, j));
    }
}

/// Words without spaces, quotes or backslashes, separated by single spaces,
/// come back as exactly those words, in order.
pub proof fn lemma_clean_words(ws: Seq<Seq<char>>)
    requires
        forall|k: int| 0 <= k < ws.len() ==> #[trigger] ws[k].len() > 0,
        forall|k: int, m: int|
            0 <= k < ws.len() && 0 <= m < ws[k].len() ==> is_plain_char(#[trigger] ws[k][m]),
    ensures
        tokens_of(join_words(ws)) == ws,
    decreases ws.len(),
{
    let init = initial_state();
    if ws.len() == 0 {
        assert(tokens_of(join_words(ws)) =~= ws);
    } else {
        let w = ws[0];
        let s = join_words(ws);
        let rest = ws.drop_first();
        let with_w = ScanState { token: init.token + w, ..init };
        assert(init.token + w =~= w);
        if ws.len() == 1 {
            assert(s == w);
            assert forall|k: int| 0 <= k < s.len() implies is_plain_char(#[trigger] s[k]) by {
                assert(is_plain_char(ws[0][k]));
            }
            lemma_plain_run(s, 0, w.len() as int, init);
            assert(s.subrange(0, w.len() as int) =~= w);
            assert(tokens_of(s) =~= ws);
        } else {
            let a = w + seq![' '];
            let b = join_words(rest);
            assert(s == a + b);
            assert forall|k: int| 0 <= k < w.len() implies is_plain_char(#[trigger] s[k]) by {
                assert(s[k] == ws[0][k]);
                assert(is_plain_char(ws[0][k]));
            }
            lemma_plain_run(s, 0, w.len() as int, init);
            assert(s.subrange(0, w.len() as int) =~= w);
            assert(s[w.len() as int] == ' ');
            let after = ScanState { token: seq![], out: seq![w], ..init };
            assert(step(s, w.len() as int, with_w) == (after, w.len() as int + 1));
            lemma_scan_out(s, w.len() as int + 1, after);
            assert(ScanState { out: seq![], ..after } == init);
            lemma_scan_shift(a, b, 0, init);
            assert forall|k: int| 0 <= k < rest.len() implies #[trigger] rest[k].len() > 0 by {
                assert(rest[k] == ws[k + 1]);
            }
            assert forall|k: int, m: int|
                0 <= k < rest.len() && 0 <= m < rest[k].len() implies is_plain_char(
                #[trigger] rest[k][m],
            ) by {
                assert(rest[k] == ws[k + 1]);
            }
            lemma_clean_words(rest);
            assert(tokens_of(s) =~= ws);
        }
    }
}

/// The state in which the scanner of `s`, started at `i` in `st`, ends.
pub open spec fn end_state(s: Seq<char>, i: int, st: ScanState) -> ScanState
    decreases s.len() - i,
{
    if i < 0 || i >= s.len() {
        st
    } else {
        let (next, j) = step(s, i, st);
        end_state(s, j, next)
    }
}

pub proof fn lemma_scan_end(s: Seq<char>, i: int, st: ScanState)
    ensures
        scan(s, i, st) == flushed(end_state(s, i, st)),
    decreases s.len() - i,
{
    if 0 <= i < s.len() {
        let (next, j) = step(s, i, st);
        lemma_scan_end(s, j, next);
    }
}

pub proof fn lemma_scan_append_space(s: Seq<char>, i: int, st: ScanState)
    requires
        0 <= i <= s.len(),
    ensures
        scan(s.push(' '), i, st) == scan(s.push(' '), s.len() as int, end_state(s, i, st)),
    decreases s.len() - i,
{
    let t = s.push(' ');
    if i < s.len() {
        assert(t[i] == s[i]);
        if i + 1 < s.len() {
            assert(t[i + 1] == s[i + 1]);
        } else {
            assert(t[i + 1] == ' ');
        }
        let (n, j) = step(s, i, st);
        assert(step(t, i, st) == (n, j));
        lemma_scan_append_space(s, j, n);
    }
}

/// Where a line ends outside quotes and with no pending escape, a trailing
/// space yields no token.
pub proof fn lemma_trailing_space(s: Seq<char>)
    requires
        is_plain(end_state(s, 0, initial_state())),
    ensures
        tokens_of(s.push(' ')) == tokens_of(s),
{
    let e = end_state(s, 0, initial_state());
    let t = s.push(' ');
    lemma_scan_append_space(s, 0, initial_state());
    lemma_scan_end(s, 0, initial_state());
    assert(t[s.len() as int] == ' ');
    let after = ScanState { token: seq![], out: flushed(e), ..e };
    assert(step(t, s.len() as int, e) == (after, s.len() as int + 1));
    assert(scan(t, s.len() as int, e) == scan(t, s.len() as int + 1, after));
    assert(flushed(after) == flushed(e));
}

/// Outside quotes, the first of two spaces in a row changes nothing: a run of
/// spaces is one boundary between tokens.
pub proof fn lemma_space_run(s: Seq<char>, i: int, st: ScanState)
    requires
        is_plain(st),
        0 <= i,
        i + 1 < s.len(),
        s[i] == ' ',
        s[i + 1] == ' ',
    ensures
        scan(s, i, st) == scan(s, i + 1, st),
{
    let (n, j) = step(s, i, st);
    assert(n.token == Seq::<char>::empty());
    assert(step(s, i + 1, n) == (n, i + 2));
    assert(step(s, i + 1, st) == (n, i + 2));
    assert(scan(s, i, st) == scan(s, i + 1, n));
    assert(scan(s, i + 1, n) == scan(s, i + 2, n));
    assert(scan(s, i + 1, st) == scan(s, i + 2, n));
}

/// A leading space yields no token.
pub proof fn lemma_leading_space(s: Seq<char>)
    ensures
        tokens_of(seq![' '] + s) == tokens_of(s),
{
    let t = seq![' '] + s;
    assert(t[0] == ' ');
    assert(step(t, 0, initial_state()) == (initial_state(), 1int));
    lemma_scan_shift(seq![' '], s, 0, initial_state());
}

/// A non-empty string without single quotes, in single quotes, is one token
/// equal to that string.
pub proof fn lemma_single_quoted(s: Seq<char>)
    requires
        s.len() > 0,
        forall|k: int| 0 <= k < s.len() ==> #[trigger] s[k] != '\'',
    ensures
        tokens_of(seq!['\''] + s + seq!['\'']) == seq![s],
{
    let t = seq!['\''] + s + seq!['\''];
    let init = initial_state();
    let open = ScanState { in_single: true, ..init };
    let n = s.len() as int;
    assert(t[0] == '\'');
    assert(step(t, 0, init) == (open, 1int));
    assert forall|k: int| 1 <= k < n + 1 implies #[trigger] t[k] != '\'' by {
        assert(t[k] == s[k - 1]);
    }
    lemma_single_run(t, 1, n + 1, open);
    assert(t.subrange(1, n + 1) =~= s);
    assert(open.token + s =~= s);
    let inside = ScanState { token: s, ..open };
    assert(t[n + 1] == '\'');
    let closed = ScanState { in_single: false, ..inside };
    assert(step(t, n + 1, inside) == (closed, n + 2));
    assert(scan(t, 0, init) == scan(t, 1, open));
    assert(scan(t, n + 1, inside) == scan(t, n + 2, closed));
    assert(t.len() == n + 2);
    assert(flushed(closed) =~= seq![s]);
    assert(tokens_of(t) =~= seq![s]);
}

/// A single quote left open at the end of a line is no error: what follows it
/// is the last token.
pub proof fn lemma_unterminated_quote(s: Seq<char>)
    requires
        s.len() > 0,
        forall|k: int| 0 <= k < s.len() ==> #[trigger] s[k] != '\'',
    ensures
        tokens_of(seq!['\''] + s) == seq![s],
{
    let t = seq!['\''] + s;
    let init = initial_state();
    let open = ScanState { in_single: true, ..init };
    let n = s.len() as int;
    assert(t[0] == '\'');
    assert(step(t, 0, init) == (open, 1int));
    assert forall|k: int| 1 <= k < n + 1 implies #[trigger] t[k] != '\'' by {
        assert(t[k] == s[k - 1]);
    }
    lemma_single_run(t, 1, n + 1, open);
    assert(t.subrange(1, n + 1) =~= s);
    assert(open.token + s =~= s);
    let inside = ScanState { token: s, ..open };
    assert(scan(t, 0, init) == scan(t, 1, open));
    assert(flushed(inside) =~= seq![s]);
    assert(tokens_of(t) =~= seq![s]);
}

/// Inside double quotes, a backslash before a double quote or a backslash
/// yields that character alone; before any other character it stays.
pub proof fn lemma_double_quote_escape(s: Seq<char>, i: int, st: ScanState)
    requires
        st.in_double && !st.in_single && !st.escape_next,
        0 <= i,
        i + 1 < s.len(),
        s[i] == '\\',
    ensures
        (s[i + 1] == '"' || s[i + 1] == '\\') ==> scan(s, i, st) == scan(
            s,
            i + 2,
            with_char(st, s[i + 1]),
        ),
        !(s[i + 1] == '"' || s[i + 1] == '\\') ==> scan(s, i, st) == scan(
            s,
            i + 1,
            with_char(st, '\\'),
        ),
{
}

/// Outside quotes, a backslash makes the next character, whatever it is, part
/// of the token.
pub proof fn lemma_escape_outside(s: Seq<char>, i: int, st: ScanState)
    requires
        is_plain(st),
        0 <= i,
        i + 1 < s.len(),
        s[i] == '\\',
    ensures
        scan(s, i, st) == scan(s, i + 2, with_char(st, s[i + 1])),
{
    let esc = ScanState { escape_next: true, ..st };
    assert(step(s, i, st) == (esc, i + 1));
    assert(step(s, i + 1, esc) == (with_char(st, s[i + 1]), i + 2));
    assert(scan(s, i, st) == scan(s, i + 1, esc));
    assert(scan(s, i + 1, esc) == scan(s, i + 2, with_char(st, s[i + 1])));
}

/// A double-quoted part and an unquoted part with no space between them make
/// one token.
pub proof fn lemma_adjacent_merge(a: Seq<char>, b: Seq<char>)
    requires
        b.len() > 0,
        forall|k: int| 0 <= k < a.len() ==> #[trigger] a[k] != '"' && a[k] != '\\',
        forall|k: int| 0 <= k < b.len() ==> is_plain_char(#[trigger] b[k]),
    ensures
        tokens_of(seq!['"'] + a + seq!['"'] + b) == seq![a + b],
{
    let t = seq!['"'] + a + seq!['"'] + b;
    let init = initial_state();
    let open = ScanState { in_double: true, ..init };
    let n = a.len() as int;
    assert(t[0] == '"');
    assert(step(t, 0, init) == (open, 1int));
    assert forall|k: int| 1 <= k < n + 1 implies #[trigger] t[k] != '"' && t[k] != '\\' by {
        assert(t[k] == a[k - 1]);
    }
    lemma_double_run(t, 1, n + 1, open);
    assert(t.subrange(1, n + 1) =~= a);
    assert(open.token + a =~= a);
    let inside = ScanState { token: a, ..open };
    assert(t[n + 1] == '"');
    let closed = ScanState { in_double: false, ..inside };
    assert(step(t, n + 1, inside) == (closed, n + 2));
    assert forall|k: int| n + 2 <= k < t.len() implies is_plain_char(#[trigger] t[k]) by {
        assert(t[k] == b[k - n - 2]);
    }
    lemma_plain_run(t, n + 2, t.len() as int, closed);
    assert(t.subrange(n + 2, t.len() as int) =~= b);
    assert(tokens_of(t) =~= seq![a + b]);
}

} // verus!
