//! The byte-array literal encoding of key material: a keypair's bytes are
//! rendered as `[12, 34, 56]`, and parsed back from that form (with
//! whitespace allowed around the brackets, numbers and commas).
//!
//! The parser is a single left-to-right character automaton; the renderer
//! always emits the canonical `[a, b, c]` shape, and the round-trip law
//! `lemma_bytes_text_round_trip` says the automaton accepts exactly the
//! rendered bytes.

use vstd::prelude::*;

verus! {

/// Whitespace accepted between tokens of the byte-array literal.
pub open spec fn is_ws_char(c: char) -> bool {
    c == ' ' || c == '\t' || c == '\n' || c == '\r'
}

/// A decimal digit.
pub open spec fn is_digit_char(c: char) -> bool {
    48 <= c as u32 <= 57
}

/// The value of a decimal digit.
pub open spec fn digit_val(c: char) -> int {
    c as u32 - 48
}

/// The character of a decimal digit value.
pub open spec fn digit_char(d: int) -> char {
    ((48 + d) as u8) as char
}

/// Parser state of the byte-array literal automaton.
pub enum PState {
    /// Nothing but leading whitespace seen yet; an opening bracket is due.
    Start,
    /// The opening bracket is consumed; the first number or the closing
    /// bracket is due.
    First,
    /// Inside a number; `items` are the completed values, `acc` the value
    /// of the digits read so far (at most 255).
    Num { items: Seq<u8>, acc: int },
    /// A number is complete; a comma or the closing bracket is due.
    AfterNum { items: Seq<u8> },
    /// A comma is consumed; the next number is due.
    Sep { items: Seq<u8> },
    /// The closing bracket is consumed; only trailing whitespace may follow.
    End { items: Seq<u8> },
    /// The input cannot be a byte-array literal.
    Fail,
}

/// One step of the automaton.
pub open spec fn pstep(st: PState, c: char) -> PState {
    match st {
        PState::Start => {
            if is_ws_char(c) {
                PState::Start
            } else if c == '[' {
                PState::First
            } else {
                PState::Fail
            }
        },
        PState::First => {
            if is_ws_char(c) {
                PState::First
            } else if is_digit_char(c) {
                PState::Num { items: Seq::empty(), acc: digit_val(c) }
            } else if c == ']' {
                PState::End { items: Seq::empty() }
            } else {
                PState::Fail
            }
        },
        PState::Num { items, acc } => {
            if is_digit_char(c) {
                if acc * 10 + digit_val(c) <= 255 {
                    PState::Num { items, acc: acc * 10 + digit_val(c) }
                } else {
                    PState::Fail
                }
            } else if is_ws_char(c) {
                PState::AfterNum { items: items.push(acc as u8) }
            } else if c == ',' {
                PState::Sep { items: items.push(acc as u8) }
            } else if c == ']' {
                PState::End { items: items.push(acc as u8) }
            } else {
                PState::Fail
            }
        },
        PState::AfterNum { items } => {
            if is_ws_char(c) {
                PState::AfterNum { items }
            } else if c == ',' {
                PState::Sep { items }
            } else if c == ']' {
                PState::End { items }
            } else {
                PState::Fail
            }
        },
        PState::Sep { items } => {
            if is_ws_char(c) {
                PState::Sep { items }
            } else if is_digit_char(c) {
                PState::Num { items, acc: digit_val(c) }
            } else {
                PState::Fail
            }
        },
        PState::End { items } => {
            if is_ws_char(c) {
                PState::End { items }
            } else {
                PState::Fail
            }
        },
        PState::Fail => PState::Fail,
    }
}

/// The automaton run over `s` from state `st`.
pub open spec fn pfold_from(st: PState, s: Seq<char>) -> PState
    decreases s.len(),
{
    if s.len() == 0 {
        st
    } else {
        pfold_from(pstep(st, s[0]), s.skip(1))
    }
}

/// What the byte-array literal `s` denotes, if anything.
pub open spec fn parse_bytes_spec(s: Seq<char>) -> Option<Seq<u8>> {
    match pfold_from(PState::Start, s) {
        PState::End { items } => Some(items),
        _ => None,
    }
}

/// The decimal rendering of one byte, without leading zeros.
pub open spec fn dec_text_of(b: u8) -> Seq<char> {
    if b < 10 {
        seq![digit_char(b as int)]
    } else if b < 100 {
        seq![digit_char(b as int / 10), digit_char(b as int % 10)]
    } else {
        seq![
            digit_char(b as int / 100),
            digit_char((b as int / 10) % 10),
            digit_char(b as int % 10),
        ]
    }
}

/// The comma-separated item list of the rendering.
pub open spec fn items_text_of(v: Seq<u8>) -> Seq<char>
    decreases v.len(),
{
    if v.len() == 0 {
        Seq::empty()
    } else if v.len() == 1 {
        dec_text_of(v[0])
    } else {
        items_text_of(v.drop_last()) + seq![',', ' '] + dec_text_of(v.last())
    }
}

/// The canonical byte-array literal of `v`: `[a, b, c]`.
pub open spec fn bytes_text_of(v: Seq<u8>) -> Seq<char> {
    seq!['['] + items_text_of(v) + seq![']']
}

/// Relies on `String::push`: appends exactly the one character.
#[verifier::external_body]
fn push_char(s: &mut String, c: char)
    ensures
        final(s)@ == old(s)@.push(c),
{
    s.push(c);
}

/// The executable counterpart of [`PState`], holding the completed items.
enum EState {
    Start,
    First,
    Num(Vec<u8>, u8),
    AfterNum(Vec<u8>),
    Sep(Vec<u8>),
    End(Vec<u8>),
    Fail,
}

impl EState {
    spec fn view_st(&self) -> PState {
        match self {
            EState::Start => PState::Start,
            EState::First => PState::First,
            EState::Num(items, acc) => PState::Num { items: items@, acc: *acc as int },
            EState::AfterNum(items) => PState::AfterNum { items: items@ },
            EState::Sep(items) => PState::Sep { items: items@ },
            EState::End(items) => PState::End { items: items@ },
            EState::Fail => PState::Fail,
        }
    }
}

fn is_ws(c: char) -> (r: bool)
    ensures
        r == is_ws_char(c),
{
    c == ' ' || c == '\t' || c == '\n' || c == '\r'
}

fn pstep_exec(st: EState, c: char) -> (r: EState)
    ensures
        r.view_st() == pstep(st.view_st(), c),
{
    let u = c as u32;
    let digit = 48 <= u && u <= 57;
    match st {
        EState::Start => {
            if is_ws(c) {
                EState::Start
            } else if c == '[' {
                EState::First
            } else {
                EState::Fail
            }
        },
        EState::First => {
            if is_ws(c) {
                EState::First
            } else if digit {
                EState::Num(Vec::new(), (u - 48) as u8)
            } else if c == ']' {
                EState::End(Vec::new())
            } else {
                EState::Fail
            }
        },
        EState::Num(mut items, acc) => {
            if digit {
                let wide: u32 = acc as u32 * 10 + (u - 48);
                if wide <= 255 {
                    EState::Num(items, wide as u8)
                } else {
                    EState::Fail
                }
            } else if is_ws(c) {
                items.push(acc);
                EState::AfterNum(items)
            } else if c == ',' {
                items.push(acc);
                EState::Sep(items)
            } else if c == ']' {
                items.push(acc);
                EState::End(items)
            } else {
                EState::Fail
            }
        },
        EState::AfterNum(items) => {
            if is_ws(c) {
                EState::AfterNum(items)
            } else if c == ',' {
                EState::Sep(items)
            } else if c == ']' {
                EState::End(items)
            } else {
                EState::Fail
            }
        },
        EState::Sep(items) => {
            if is_ws(c) {
                EState::Sep(items)
            } else if digit {
                EState::Num(items, (u - 48) as u8)
            } else {
                EState::Fail
            }
        },
        EState::End(items) => {
            if is_ws(c) {
                EState::End(items)
            } else {
                EState::Fail
            }
        },
        EState::Fail => EState::Fail,
    }
}

/// Running the automaton over one more character steps its state once.
proof fn lemma_pfold_snoc(st: PState, s: Seq<char>, c: char)
    ensures
        pfold_from(st, s.push(c)) == pstep(pfold_from(st, s), c),
    decreases s.len(),
{
    let t = s.push(c);
    if s.len() == 0 {
        assert(t[0] == c);
        assert(t.skip(1) =~= Seq::<char>::empty());
        assert(pfold_from(st, t) == pfold_from(pstep(st, c), t.skip(1)));
        assert(pfold_from(pstep(st, c), t.skip(1)) == pstep(st, c));
        assert(pfold_from(st, s) == st);
    } else {
        assert(t[0] == s[0]);
        assert(t.skip(1) =~= s.skip(1).push(c));
        assert(pfold_from(st, t) == pfold_from(pstep(st, s[0]), s.skip(1).push(c)));
        lemma_pfold_snoc(pstep(st, s[0]), s.skip(1), c);
        assert(pfold_from(st, s) == pfold_from(pstep(st, s[0]), s.skip(1)));
    }
}

/// The automaton distributes over concatenation.
proof fn lemma_pfold_append(st: PState, a: Seq<char>, b: Seq<char>)
    ensures
        pfold_from(st, a + b) == pfold_from(pfold_from(st, a), b),
    decreases a.len(),
{
    if a.len() == 0 {
        assert(a + b =~= b);
    } else {
        assert((a + b)[0] == a[0]);
        assert((a + b).skip(1) =~= a.skip(1) + b);
        lemma_pfold_append(pstep(st, a[0]), a.skip(1), b);
    }
}

/// Parses a byte-array literal such as `[12, 34]`; `None` exactly when the
/// automaton does not accept the text.
pub fn parse_bytes_text(s: &str) -> (r: Option<Vec<u8>>)
    ensures
        match r {
            Some(v) => parse_bytes_spec(s@) == Some(v@),
            None => parse_bytes_spec(s@) is None,
        },
{
    let n = s.unicode_len();
    let mut st = EState::Start;
    let mut i: usize = 0;
    while i < n
        invariant
            n == s@.len(),
            i <= n,
            st.view_st() == pfold_from(PState::Start, s@.take(i as int)),
        decreases n - i,
    {
        let c = s.get_char(i);
        st = pstep_exec(st, c);
        proof {
            lemma_pfold_snoc(PState::Start, s@.take(i as int), s@[i as int]);
            assert(s@.take(i + 1) =~= s@.take(i as int).push(s@[i as int]));
        }
        i += 1;
    }
    proof {
        assert(s@.take(n as int) =~= s@);
    }
    match st {
        EState::End(items) => Some(items),
        _ => None,
    }
}

fn push_digits(s: &mut String, b: u8)
    ensures
        final(s)@ == old(s)@ + dec_text_of(b),
{
    if b < 10 {
        push_char(s, (48 + b) as char);
        assert(s@ =~= old(s)@ + dec_text_of(b));
    } else if b < 100 {
        push_char(s, (48 + b / 10) as char);
        push_char(s, (48 + b % 10) as char);
        assert(s@ =~= old(s)@ + dec_text_of(b));
    } else {
        push_char(s, (48 + b / 100) as char);
        push_char(s, (48 + (b / 10) % 10) as char);
        push_char(s, (48 + b % 10) as char);
        assert(s@ =~= old(s)@ + dec_text_of(b));
    }
}

/// Extending the rendered list by one item appends a separator (after the
/// first item) and the item's digits.
proof fn lemma_items_text_push(v: Seq<u8>, i: int)
    requires
        0 <= i < v.len(),
    ensures
        items_text_of(v.take(i + 1)) == if i == 0 {
            dec_text_of(v[0])
        } else {
            (items_text_of(v.take(i)) + seq![',', ' ']) + dec_text_of(v[i])
        },
{
    let w = v.take(i + 1);
    if i == 0 {
        assert(w.len() == 1);
        assert(w[0] == v[0]);
    } else {
        assert(w.drop_last() =~= v.take(i));
        assert(w.last() == v[i]);
        assert(items_text_of(w) == items_text_of(v.take(i)) + seq![',', ' '] + dec_text_of(v[i]));
        assert((items_text_of(v.take(i)) + seq![',', ' ']) + dec_text_of(v[i]) =~= items_text_of(
            v.take(i),
        ) + seq![',', ' '] + dec_text_of(v[i]));
    }
}

/// Renders `v` in the canonical byte-array literal form `[a, b, c]`.
pub fn render_bytes(v: &Vec<u8>) -> (r: String)
    ensures
        r@ == bytes_text_of(v@),
{
    let mut s = String::new();
    push_char(&mut s, '[');
    assert(s@ =~= seq!['['] + items_text_of(v@.take(0)));
    let mut i: usize = 0;
    while i < v.len()
        invariant
            i <= v@.len(),
            s@ == seq!['['] + items_text_of(v@.take(i as int)),
        decreases v@.len() - i,
    {
        if i > 0 {
            push_char(&mut s, ',');
            push_char(&mut s, ' ');
        }
        push_digits(&mut s, v[i]);
        proof {
            lemma_items_text_push(v@, i as int);
            if i == 0 {
                assert(s@ =~= seq!['['] + items_text_of(v@.take(i + 1)));
            } else {
                assert(s@ =~= seq!['['] + items_text_of(v@.take(i + 1)));
            }
        }
        i += 1;
    }
    proof {
        assert(v@.take(v@.len() as int) =~= v@);
    }
    push_char(&mut s, ']');
    assert(s@ =~= bytes_text_of(v@));
    s
}

proof fn lemma_digit_char_facts(d: int)
    requires
        0 <= d <= 9,
    ensures
        is_digit_char(digit_char(d)),
        digit_val(digit_char(d)) == d,
        !is_ws_char(digit_char(d)),
        digit_char(d) != '[',
        digit_char(d) != ']',
        digit_char(d) != ',',
{
}

/// From a state that expects a number, the digits of `b` are consumed into
/// an in-progress number of value `b`.
proof fn lemma_pfold_dec_text(st: PState, items: Seq<u8>, b: u8)
    requires
        st == (PState::Sep { items }) || (st == PState::First && items =~= Seq::<u8>::empty()),
    ensures
        pfold_from(st, dec_text_of(b)) == (PState::Num { items, acc: b as int }),
{
    broadcast use vstd::arithmetic::div_mod::lemma_fundamental_div_mod;

    let s = dec_text_of(b);
    if b < 10 {
        let c = digit_char(b as int);
        lemma_digit_char_facts(b as int);
        assert(s.skip(1) =~= Seq::<char>::empty());
        assert(pstep(st, c) == (PState::Num { items, acc: b as int }));
        assert(pfold_from(st, s) == pfold_from(pstep(st, c), s.skip(1)));
    } else if b < 100 {
        let d1 = b as int / 10;
        let d2 = b as int % 10;
        lemma_digit_char_facts(d1);
        lemma_digit_char_facts(d2);
        let c1 = digit_char(d1);
        let c2 = digit_char(d2);
        assert(b as int == 10 * d1 + d2);
        assert(s[0] == c1 && s.skip(1) =~= seq![c2]);
        let st1 = pstep(st, c1);
        assert(st1 == (PState::Num { items, acc: d1 }));
        assert(d1 * 10 + d2 == b as int);
        let st2 = pstep(st1, c2);
        assert(st2 == (PState::Num { items, acc: b as int }));
        assert(seq![c2].skip(1) =~= Seq::<char>::empty());
        assert(pfold_from(st, s) == pfold_from(st1, seq![c2]));
        assert(pfold_from(st1, seq![c2]) == pfold_from(st2, Seq::<char>::empty()));
    } else {
        let d1 = b as int / 100;
        let d2 = (b as int / 10) % 10;
        let d3 = b as int % 10;
        lemma_digit_char_facts(d1);
        lemma_digit_char_facts(d2);
        lemma_digit_char_facts(d3);
        let c1 = digit_char(d1);
        let c2 = digit_char(d2);
        let c3 = digit_char(d3);
        assert(s[0] == c1 && s.skip(1) =~= seq![c2, c3]);
        vstd::arithmetic::div_mod::lemma_div_denominator(b as int, 10, 10);
        assert((b as int / 10) / 10 == b as int / 100);
        assert(b as int / 10 == 10 * ((b as int / 10) / 10) + (b as int / 10) % 10);
        assert(d1 * 10 + d2 == b as int / 10);
        assert(b as int == 10 * (b as int / 10) + d3);
        assert((b as int / 10) * 10 + d3 == b as int);
        let st1 = pstep(st, c1);
        assert(st1 == (PState::Num { items, acc: d1 }));
        let st2 = pstep(st1, c2);
        assert(st2 == (PState::Num { items, acc: b as int / 10 }));
        let st3 = pstep(st2, c3);
        assert(st3 == (PState::Num { items, acc: b as int }));
        assert(seq![c2, c3].skip(1) =~= seq![c3]);
        assert(seq![c3].skip(1) =~= Seq::<char>::empty());
        assert(pfold_from(st, s) == pfold_from(st1, seq![c2, c3]));
        assert(pfold_from(st1, seq![c2, c3]) == pfold_from(st2, seq![c3]));
        assert(pfold_from(st2, seq![c3]) == pfold_from(st3, Seq::<char>::empty()));
    }
}

/// After the opening bracket, a non-empty rendered item list leaves the
/// automaton inside the final number.
proof fn lemma_pfold_items(v: Seq<u8>)
    requires
        v.len() > 0,
    ensures
        pfold_from(PState::First, items_text_of(v)) == (PState::Num {
            items: v.drop_last(),
            acc: v.last() as int,
        }),
    decreases v.len(),
{
    if v.len() == 1 {
        assert(items_text_of(v) == dec_text_of(v[0]));
        lemma_pfold_dec_text(PState::First, Seq::empty(), v[0]);
        assert(v.drop_last() =~= Seq::<u8>::empty());
        assert(v.last() == v[0]);
    } else {
        let w = v.drop_last();
        lemma_pfold_items(w);
        let s1 = items_text_of(w);
        let mid = seq![',', ' '];
        let s2 = dec_text_of(v.last());
        assert(items_text_of(v) == (s1 + mid) + s2);
        lemma_pfold_append(PState::First, s1 + mid, s2);
        lemma_pfold_append(PState::First, s1, mid);
        let stn = PState::Num { items: w.drop_last(), acc: w.last() as int };
        assert(pfold_from(PState::First, s1) == stn);
        let st_sep = pstep(stn, ',');
        assert(w.drop_last().push((w.last() as int) as u8) =~= w);
        assert(st_sep == (PState::Sep { items: w }));
        assert(pstep(st_sep, ' ') == (PState::Sep { items: w }));
        assert(mid.skip(1) =~= seq![' ']);
        assert(seq![' '].skip(1) =~= Seq::<char>::empty());
        assert(mid[0] == ',');
        assert(pfold_from(stn, mid) == pfold_from(st_sep, seq![' ']));
        assert(seq![' '][0] == ' ');
        assert(pfold_from(st_sep, seq![' ']) == pfold_from(
            PState::Sep { items: w },
            seq![' '].skip(1),
        ));
        assert(pfold_from(PState::Sep { items: w }, Seq::<char>::empty()) == (PState::Sep {
            items: w,
        }));
        lemma_pfold_dec_text(PState::Sep { items: w }, w, v.last());
    }
}

/// Round trip of the byte-array literal: parsing what was rendered gives
/// back exactly the rendered bytes.
pub proof fn lemma_bytes_text_round_trip(v: Seq<u8>)
    ensures
        parse_bytes_spec(bytes_text_of(v)) == Some(v),
{
    let s = bytes_text_of(v);
    let open = seq!['['];
    let items = items_text_of(v);
    let close = seq![']'];
    assert(s == (open + items) + close);
    lemma_pfold_append(PState::Start, open + items, close);
    lemma_pfold_append(PState::Start, open, items);
    assert(open.skip(1) =~= Seq::<char>::empty());
    assert(open[0] == '[');
    assert(pstep(PState::Start, '[') == PState::First);
    assert(pfold_from(PState::Start, open) == pfold_from(PState::First, open.skip(1)));
    assert(pfold_from(PState::First, Seq::<char>::empty()) == PState::First);
    assert(close.skip(1) =~= Seq::<char>::empty());
    assert(close[0] == ']');
    if v.len() == 0 {
        assert(pfold_from(PState::First, items) == PState::First);
        assert(pstep(PState::First, ']') == (PState::End { items: Seq::<u8>::empty() }));
        assert(pfold_from(PState::First, close) == pfold_from(
            PState::End { items: Seq::<u8>::empty() },
            close.skip(1),
        ));
        assert(pfold_from(PState::End { items: Seq::<u8>::empty() }, Seq::<char>::empty())
            == (PState::End { items: Seq::<u8>::empty() }));
        assert(v =~= Seq::<u8>::empty());
    } else {
        lemma_pfold_items(v);
        let stn = PState::Num { items: v.drop_last(), acc: v.last() as int };
        assert(v.drop_last().push((v.last() as int) as u8) =~= v);
        assert(pstep(stn, ']') == (PState::End { items: v }));
        assert(pfold_from(stn, close) == pfold_from(PState::End { items: v }, close.skip(1)));
        assert(pfold_from(PState::End { items: v }, Seq::<char>::empty()) == (PState::End {
            items: v,
        }));
    }
}

} // verus!

