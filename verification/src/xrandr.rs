//! The boundary to the display server's query. The library itself never
//! spawns the external tool: in debug mode it hands out the built-in
//! fixture; otherwise it reports that no model is available, and the
//! embedding program performs the live query and builds the model.

use vstd::prelude::*;

use crate::debug::{debug_monitor_info, debug_monitors_spec};
use crate::monitor::{mons_view, Mode, ModeV, Monitor, MonitorV, Monitors};

verus! {

/// Initial monitor information. With `debug` set, the fixture model; the
/// live query is not the library's to run, so without `debug` the result
/// is `Err(())` and the embedding program supplies the model itself.
pub fn get_monitor_info(debug: bool) -> (r: Result<Monitors, ()>)
    ensures
        debug ==> (r is Ok) && mons_view(r->Ok_0) == debug_monitors_spec(),
        !debug ==> (r is Err),
{
    if debug {
        Ok(debug_monitor_info())
    } else {
        Err(())
    }
}


// ---------------------------------------------------------------------------
// Byte-level text helpers for the query report
// ---------------------------------------------------------------------------

/// Horizontal whitespace inside a report line.
pub open spec fn is_ws(b: u8) -> bool {
    b == 32 || b == 9 || b == 13 || b == 11 || b == 12
}

/// The value of a digit prefix, most significant first.
pub open spec fn digits_val(t: Seq<u8>, k: int) -> int
    decreases k,
{
    if k <= 0 {
        0
    } else {
        digits_val(t, k - 1) * 10 + (t[k - 1] - 48)
    }
}

pub open spec fn all_digits(t: Seq<u8>) -> bool {
    t.len() > 0 && (forall|i: int| 0 <= i < t.len() ==> 48 <= #[trigger] t[i] <= 57)
}

/// A digit prefix never has a negative value.
pub proof fn lemma_digits_val_nonneg(t: Seq<u8>, k: int)
    requires
        0 <= k <= t.len(),
        forall|i: int| 0 <= i < t.len() ==> 48 <= #[trigger] t[i] <= 57,
    ensures
        digits_val(t, k) >= 0,
    decreases k,
{
    if k > 0 {
        lemma_digits_val_nonneg(t, k - 1);
    }
}

/// Digit values only grow as more digits arrive.
pub proof fn lemma_digits_val_grows(t: Seq<u8>, k1: int, k2: int)
    requires
        0 <= k1 <= k2 <= t.len(),
        forall|i: int| 0 <= i < t.len() ==> 48 <= #[trigger] t[i] <= 57,
    ensures
        digits_val(t, k1) <= digits_val(t, k2),
        digits_val(t, k1) >= 0,
    decreases k2 - k1,
{
    lemma_digits_val_nonneg(t, k1);
    if k1 < k2 {
        lemma_digits_val_grows(t, k1, k2 - 1);
    }
}

/// An integer written the way the report writes one: optional minus,
/// then digits; anything else — or a value outside the 32-bit range —
/// reads as zero.
pub open spec fn parse_int_spec(t: Seq<u8>) -> int {
    if t.len() > 0 && t[0] == 45 {
        let d = t.skip(1);
        if all_digits(d) && digits_val(d, d.len() as int) <= 0x8000_0000 {
            -digits_val(d, d.len() as int)
        } else {
            0
        }
    } else {
        if all_digits(t) && digits_val(t, t.len() as int) <= 0x7FFF_FFFF {
            digits_val(t, t.len() as int)
        } else {
            0
        }
    }
}

fn parse_digits(t: &[u8], cap: i64) -> (r: Option<i64>)
    requires
        0 < cap <= 0x1_0000_0000,
    ensures
        ({
            let ok = all_digits(t@) && digits_val(t@, t@.len() as int) <= cap;
            &&& (r is Some) <==> ok
            &&& ok ==> r->Some_0 == digits_val(t@, t@.len() as int)
            &&& (r is Some) ==> 0 <= r->Some_0 <= cap
        }),
{
    if t.len() == 0 {
        return None;
    }
    let mut acc: i64 = 0;
    let mut k: usize = 0;
    while k < t.len()
        invariant
            k <= t.len(),
            0 < cap <= 0x1_0000_0000,
            forall|i: int| 0 <= i < k ==> 48 <= #[trigger] t@[i] <= 57,
            acc == digits_val(t@, k as int),
            0 <= acc <= cap,
        decreases t.len() - k,
    {
        let b = t[k];
        if b < 48 || b > 57 {
            return None;
        }
        let next = acc * 10 + ((b - 48) as i64);
        if next > cap {
            proof {
                if all_digits(t@) {
                    lemma_digits_val_grows(t@, k as int + 1, t@.len() as int);
                }
            }
            return None;
        }
        acc = next;
        k = k + 1;
    }
    Some(acc)
}

/// Read an integer as the report writes one.
pub fn parse_int(t: &[u8]) -> (r: i64)
    ensures
        r == parse_int_spec(t@),
{
    if t.len() > 0 && t[0] == 45 {
        let rest = &t[1..t.len()];
        proof {
            assert(rest@ =~= t@.skip(1));
        }
        match parse_digits(rest, 0x8000_0000) {
            Some(v) => -v,
            None => 0,
        }
    } else {
        match parse_digits(t, 0x7FFF_FFFF) {
            Some(v) => v,
            None => 0,
        }
    }
}

/// The first position of `sep`, or the length if it never occurs.
pub open spec fn find_byte(t: Seq<u8>, sep: u8) -> int
    decreases t.len(),
{
    if t.len() == 0 {
        0
    } else if t[0] == sep {
        0
    } else {
        1 + find_byte(t.drop_first(), sep)
    }
}

pub proof fn lemma_find_byte(t: Seq<u8>, sep: u8)
    ensures
        0 <= find_byte(t, sep) <= t.len(),
        find_byte(t, sep) < t.len() ==> t[find_byte(t, sep)] == sep,
        forall|i: int| 0 <= i < find_byte(t, sep) ==> t[i] != sep,
    decreases t.len(),
{
    if t.len() > 0 && t[0] != sep {
        lemma_find_byte(t.drop_first(), sep);
        assert forall|i: int| 0 <= i < find_byte(t, sep) implies t[i] != sep by {
            if i > 0 {
                assert(t.drop_first()[i - 1] == t[i]);
            }
        }
    }
}

/// A rate of the form `D+[.D[D]]`, in hundredths; `None` for anything
/// else or for values past the 32-bit range.
pub open spec fn parse_centi_spec(t: Seq<u8>) -> Option<int> {
    let i = find_byte(t, 46);
    let w = t.take(i);
    if !(all_digits(w) && digits_val(w, w.len() as int) <= 0xFFFF_FFFF) {
        None
    } else {
        let whole = digits_val(w, w.len() as int);
        let frac = if i >= t.len() {
            Some(0int)
        } else {
            let fr = t.skip(i + 1);
            if fr.len() == 1 && all_digits(fr) {
                Some((fr[0] - 48) * 10)
            } else if fr.len() == 2 && all_digits(fr) {
                Some(digits_val(fr, 2))
            } else {
                None
            }
        };
        match frac {
            None => None,
            Some(f) => if whole * 100 + f <= 0xFFFF_FFFF {
                Some(whole * 100 + f)
            } else {
                None
            },
        }
    }
}

/// Read a rate as the report writes one.
pub fn parse_centi(t: &[u8]) -> (r: Option<u32>)
    ensures
        ({
            let sp = parse_centi_spec(t@);
            match r {
                Some(v) => sp == Some(v as int),
                None => sp is None,
            }
        }),
{
    let mut i: usize = 0;
    while i < t.len()
        invariant_except_break
            i <= t.len(),
            forall|q: int| 0 <= q < i ==> t@[q] != 46,
        ensures
            i <= t.len(),
            forall|q: int| 0 <= q < i ==> t@[q] != 46,
            i < t.len() ==> t@[i as int] == 46,
        decreases t.len() - i,
    {
        if t[i] == 46 {
            break ;
        }
        i = i + 1;
    }
    proof {
        lemma_find_byte(t@, 46);
        assert(find_byte(t@, 46) == i as int) by {
            if find_byte(t@, 46) < i as int {
                assert(t@[find_byte(t@, 46)] == 46);
            }
            if find_byte(t@, 46) > i as int {
                assert(t@[i as int] != 46);
            }
        }
    }
    let w = &t[0..i];
    proof {
        assert(w@ =~= t@.take(i as int));
    }
    let whole = match parse_digits(w, 0xFFFF_FFFF) {
        Some(v) => v,
        None => {
            return None;
        },
    };
    let frac: i64 = if i >= t.len() {
        0
    } else {
        let fr = &t[i + 1..t.len()];
        proof {
            assert(fr@ =~= t@.skip(i as int + 1));
        }
        if fr.len() == 1 && 48 <= fr[0] && fr[0] <= 57 {
            ((fr[0] - 48) as i64) * 10
        } else if fr.len() == 2 && 48 <= fr[0] && fr[0] <= 57 && 48 <= fr[1] && fr[1] <= 57 {
            proof {
                assert(digits_val(fr@, 0) == 0);
                assert(digits_val(fr@, 1) == fr@[0] - 48);
                assert(digits_val(fr@, 2) == (fr@[0] - 48) * 10 + (fr@[1] - 48));
            }
            ((fr[0] - 48) as i64) * 10 + ((fr[1] - 48) as i64)
        } else {
            return None;
        }
    };
    let total = whole * 100 + frac;
    if total <= 0xFFFF_FFFF {
        Some(total as u32)
    } else {
        None
    }
}


// ---------------------------------------------------------------------------
// Tokens, pieces and lines
// ---------------------------------------------------------------------------

pub open spec fn tok_step(st: (Seq<Seq<u8>>, Seq<u8>), b: u8) -> (Seq<Seq<u8>>, Seq<u8>) {
    if is_ws(b) {
        if st.1.len() > 0 {
            (st.0.push(st.1), Seq::empty())
        } else {
            st
        }
    } else {
        (st.0, st.1.push(b))
    }
}

pub open spec fn tok_fold(line: Seq<u8>, k: int) -> (Seq<Seq<u8>>, Seq<u8>)
    decreases k,
{
    if k <= 0 {
        (Seq::empty(), Seq::empty())
    } else {
        tok_step(tok_fold(line, k - 1), line[k - 1])
    }
}

/// The whitespace-separated words of a line.
pub open spec fn tokens_of(line: Seq<u8>) -> Seq<Seq<u8>> {
    let st = tok_fold(line, line.len() as int);
    if st.1.len() > 0 {
        st.0.push(st.1)
    } else {
        st.0
    }
}

fn tokenize(line: &[u8]) -> (r: Vec<Vec<u8>>)
    ensures
        r.deep_view() == tokens_of(line@),
{
    let mut toks: Vec<Vec<u8>> = Vec::new();
    let mut cur: Vec<u8> = Vec::new();
    let mut k: usize = 0;
    proof {
        assert(toks.deep_view() =~~= tok_fold(line@, 0).0);
        assert(cur@ =~= tok_fold(line@, 0).1);
    }
    while k < line.len()
        invariant
            k <= line.len(),
            toks.deep_view() == tok_fold(line@, k as int).0,
            cur@ == tok_fold(line@, k as int).1,
        decreases line.len() - k,
    {
        let b = line[k];
        if b == 32 || b == 9 || b == 13 || b == 11 || b == 12 {
            if cur.len() > 0 {
                toks.push(cur);
                cur = Vec::new();
            }
        } else {
            cur.push(b);
        }
        proof {
            assert(toks.deep_view() =~~= tok_fold(line@, k as int + 1).0);
            assert(cur@ =~= tok_fold(line@, k as int + 1).1);
        }
        k = k + 1;
    }
    if cur.len() > 0 {
        toks.push(cur);
    }
    proof {
        assert(toks.deep_view() =~~= tokens_of(line@));
    }
    toks
}

pub open spec fn split_step(st: (Seq<Seq<u8>>, Seq<u8>), b: u8, sep: u8) -> (Seq<Seq<u8>>, Seq<u8>) {
    if b == sep {
        (st.0.push(st.1), Seq::empty())
    } else {
        (st.0, st.1.push(b))
    }
}

pub open spec fn split_fold(t: Seq<u8>, sep: u8, k: int) -> (Seq<Seq<u8>>, Seq<u8>)
    decreases k,
{
    if k <= 0 {
        (Seq::empty(), Seq::empty())
    } else {
        split_step(split_fold(t, sep, k - 1), t[k - 1], sep)
    }
}

/// The pieces of `t` between occurrences of `sep`, empty pieces kept.
pub open spec fn split_on(t: Seq<u8>, sep: u8) -> Seq<Seq<u8>> {
    let st = split_fold(t, sep, t.len() as int);
    st.0.push(st.1)
}

fn split_bytes(t: &[u8], sep: u8) -> (r: Vec<Vec<u8>>)
    ensures
        r.deep_view() == split_on(t@, sep),
{
    let mut pieces: Vec<Vec<u8>> = Vec::new();
    let mut cur: Vec<u8> = Vec::new();
    let mut k: usize = 0;
    proof {
        assert(pieces.deep_view() =~~= split_fold(t@, sep, 0).0);
        assert(cur@ =~= split_fold(t@, sep, 0).1);
    }
    while k < t.len()
        invariant
            k <= t.len(),
            pieces.deep_view() == split_fold(t@, sep, k as int).0,
            cur@ == split_fold(t@, sep, k as int).1,
        decreases t.len() - k,
    {
        let b = t[k];
        if b == sep {
            pieces.push(cur);
            cur = Vec::new();
        } else {
            cur.push(b);
        }
        proof {
            assert(pieces.deep_view() =~~= split_fold(t@, sep, k as int + 1).0);
            assert(cur@ =~= split_fold(t@, sep, k as int + 1).1);
        }
        k = k + 1;
    }
    pieces.push(cur);
    proof {
        assert(pieces.deep_view() =~~= split_on(t@, sep));
    }
    pieces
}

/// A line with one trailing carriage return removed.
pub open spec fn strip_cr(t: Seq<u8>) -> Seq<u8> {
    if t.len() > 0 && t.last() == 13 {
        t.drop_last()
    } else {
        t
    }
}

pub open spec fn lines_step(st: (Seq<Seq<u8>>, Seq<u8>), b: u8) -> (Seq<Seq<u8>>, Seq<u8>) {
    if b == 10 {
        (st.0.push(strip_cr(st.1)), Seq::empty())
    } else {
        (st.0, st.1.push(b))
    }
}

pub open spec fn lines_fold(t: Seq<u8>, k: int) -> (Seq<Seq<u8>>, Seq<u8>)
    decreases k,
{
    if k <= 0 {
        (Seq::empty(), Seq::empty())
    } else {
        lines_step(lines_fold(t, k - 1), t[k - 1])
    }
}

/// The report cut into lines at line feeds, each line's trailing
/// carriage return stripped; a report without a final line feed still
/// yields its last line.
pub open spec fn split_lines_of(t: Seq<u8>) -> Seq<Seq<u8>> {
    let st = lines_fold(t, t.len() as int);
    if st.1.len() > 0 {
        st.0.push(strip_cr(st.1))
    } else {
        st.0
    }
}

fn split_lines(t: &[u8]) -> (r: Vec<Vec<u8>>)
    ensures
        r.deep_view() == split_lines_of(t@),
{
    let mut lines: Vec<Vec<u8>> = Vec::new();
    let mut cur: Vec<u8> = Vec::new();
    let mut k: usize = 0;
    proof {
        assert(lines.deep_view() =~~= lines_fold(t@, 0).0);
        assert(cur@ =~= lines_fold(t@, 0).1);
    }
    while k < t.len()
        invariant
            k <= t.len(),
            lines.deep_view() == lines_fold(t@, k as int).0,
            cur@ == lines_fold(t@, k as int).1,
        decreases t.len() - k,
    {
        let b = t[k];
        if b == 10 {
            if cur.len() > 0 && cur[cur.len() - 1] == 13 {
                cur.pop();
            }
            proof {
                assert(cur@ =~= strip_cr(lines_fold(t@, k as int).1));
            }
            lines.push(cur);
            cur = Vec::new();
        } else {
            cur.push(b);
        }
        proof {
            assert(lines.deep_view() =~~= lines_fold(t@, k as int + 1).0);
            assert(cur@ =~= lines_fold(t@, k as int + 1).1);
        }
        k = k + 1;
    }
    if cur.len() > 0 {
        if cur[cur.len() - 1] == 13 {
            proof {
                assert(cur@.len() > 0);
            }
            cur.pop();
        }
        proof {
            assert(cur@ =~= strip_cr(lines_fold(t@, t@.len() as int).1));
        }
        lines.push(cur);
    }
    proof {
        assert(lines.deep_view() =~~= split_lines_of(t@));
    }
    lines
}

/// One or more trailing plus signs removed.
pub open spec fn trim_plus(t: Seq<u8>) -> Seq<u8>
    decreases t.len(),
{
    if t.len() > 0 && t.last() == 43 {
        trim_plus(t.drop_last())
    } else {
        t
    }
}

/// Trailing plus signs and stars removed.
pub open spec fn trim_plus_star(t: Seq<u8>) -> Seq<u8>
    decreases t.len(),
{
    if t.len() > 0 && (t.last() == 43 || t.last() == 42) {
        trim_plus_star(t.drop_last())
    } else {
        t
    }
}

fn trim_plus_len(t: &[u8]) -> (r: usize)
    ensures
        r <= t.len(),
        t@.take(r as int) == trim_plus(t@),
{
    let mut end = t.len();
    proof {
        assert(t@.take(t.len() as int) =~= t@);
    }
    while end > 0 && t[end - 1] == 43
        invariant
            end <= t.len(),
            trim_plus(t@.take(end as int)) == trim_plus(t@),
        decreases end,
    {
        proof {
            assert(t@.take(end as int).drop_last() =~= t@.take(end as int - 1));
        }
        end = end - 1;
    }
    proof {
        assert(trim_plus(t@.take(end as int)) == t@.take(end as int));
    }
    end
}

fn trim_plus_star_len(t: &[u8]) -> (r: usize)
    ensures
        r <= t.len(),
        t@.take(r as int) == trim_plus_star(t@),
{
    let mut end = t.len();
    proof {
        assert(t@.take(t.len() as int) =~= t@);
    }
    while end > 0 && (t[end - 1] == 43 || t[end - 1] == 42)
        invariant
            end <= t.len(),
            trim_plus_star(t@.take(end as int)) == trim_plus_star(t@),
        decreases end,
    {
        proof {
            assert(t@.take(end as int).drop_last() =~= t@.take(end as int - 1));
        }
        end = end - 1;
    }
    proof {
        assert(trim_plus_star(t@.take(end as int)) == t@.take(end as int));
    }
    end
}

// ---------------------------------------------------------------------------
// Substring search and fixed words
// ---------------------------------------------------------------------------

pub open spec fn matches_at(t: Seq<u8>, pat: Seq<u8>, i: int) -> bool {
    &&& 0 <= i
    &&& i + pat.len() <= t.len()
    &&& (forall|q: int| 0 <= q < pat.len() ==> t[i + q] == #[trigger] pat[q])
}

pub open spec fn contains_sub(t: Seq<u8>, pat: Seq<u8>) -> bool {
    exists|i: int| matches_at(t, pat, i)
}

fn eq_bytes(a: &[u8], b: &Vec<u8>) -> (r: bool)
    ensures
        r == (a@ == b@),
{
    if a.len() != b.len() {
        proof {
            assert(a@ != b@);
        }
        return false;
    }
    let mut q: usize = 0;
    while q < a.len()
        invariant
            q <= a.len(),
            a@.len() == b@.len(),
            forall|i: int| 0 <= i < q ==> a@[i] == b@[i],
        decreases a.len() - q,
    {
        if a[q] != b[q] {
            return false;
        }
        q = q + 1;
    }
    proof {
        assert(a@ =~= b@);
    }
    true
}

fn contains_bytes(t: &[u8], pat: &Vec<u8>) -> (r: bool)
    requires
        pat.len() >= 1,
    ensures
        r == contains_sub(t@, pat@),
{
    if t.len() < pat.len() {
        proof {
            if contains_sub(t@, pat@) {
                let i = choose|i: int| matches_at(t@, pat@, i);
            }
        }
        return false;
    }
    let mut i: usize = 0;
    while i <= t.len() - pat.len()
        invariant
            t.len() >= pat.len(),
            i <= t.len() - pat.len() + 1,
            forall|p: int| 0 <= p < i ==> !matches_at(t@, pat@, p),
        decreases t.len() - pat.len() + 1 - i,
    {
        let mut q: usize = 0;
        let mut hit = true;
        while q < pat.len()
            invariant_except_break
                q <= pat.len(),
                i + pat.len() <= t.len(),
                hit,
                forall|x: int| 0 <= x < q ==> t@[i + x] == pat@[x],
            ensures
                i + pat.len() <= t.len(),
                hit ==> q == pat.len() && (forall|x: int| 0 <= x < q ==> t@[i + x] == pat@[x]),
                !hit ==> q < pat.len() && t@[i + q as int] != pat@[q as int],
            decreases pat.len() - q,
        {
            if t[i + q] != pat[q] {
                hit = false;
                break ;
            }
            q = q + 1;
        }
        if hit {
            proof {
                assert(matches_at(t@, pat@, i as int));
            }
            return true;
        }
        proof {
            assert(!matches_at(t@, pat@, i as int));
        }
        i = i + 1;
    }
    proof {
        if contains_sub(t@, pat@) {
            let p = choose|p: int| matches_at(t@, pat@, p);
            assert(p + pat@.len() <= t@.len());
            assert(!matches_at(t@, pat@, p));
        }
    }
    false
}

/// The marker of a connected output's header line.
pub open spec fn connected_pat() -> Seq<u8> {
    seq![32u8, 99u8, 111u8, 110u8, 110u8, 101u8, 99u8, 116u8, 101u8, 100u8]
}

/// The marker of a disconnected output's line.
pub open spec fn disconnected_pat() -> Seq<u8> {
    seq![32u8, 100u8, 105u8, 115u8, 99u8, 111u8, 110u8, 110u8, 101u8, 99u8, 116u8, 101u8, 100u8]
}

/// The word that marks the primary output in a header line.
pub open spec fn primary_pat() -> Seq<u8> {
    seq![112u8, 114u8, 105u8, 109u8, 97u8, 114u8, 121u8]
}

fn needle_connected() -> (r: Vec<u8>)
    ensures
        r@ =~= connected_pat(),
{
    let mut v: Vec<u8> = Vec::new();
    v.push(32);
    v.push(99);
    v.push(111);
    v.push(110);
    v.push(110);
    v.push(101);
    v.push(99);
    v.push(116);
    v.push(101);
    v.push(100);
    v
}

fn needle_disconnected() -> (r: Vec<u8>)
    ensures
        r@ =~= disconnected_pat(),
{
    let mut v: Vec<u8> = Vec::new();
    v.push(32);
    v.push(100);
    v.push(105);
    v.push(115);
    v.push(99);
    v.push(111);
    v.push(110);
    v.push(110);
    v.push(101);
    v.push(99);
    v.push(116);
    v.push(101);
    v.push(100);
    v
}

fn needle_primary() -> (r: Vec<u8>)
    ensures
        r@ =~= primary_pat(),
{
    let mut v: Vec<u8> = Vec::new();
    v.push(112);
    v.push(114);
    v.push(105);
    v.push(109);
    v.push(97);
    v.push(114);
    v.push(121);
    v
}

// ---------------------------------------------------------------------------
// Output names
// ---------------------------------------------------------------------------

/// Bytes as characters, with anything beyond plain ASCII replaced.
pub open spec fn name_of(bytes: Seq<u8>) -> Seq<char> {
    bytes.map_values(|b: u8| if b < 128 { b as char } else { '?' })
}

/// Relies on String::from_utf8: a buffer of plain ASCII bytes is valid
/// and its characters are exactly those bytes.
#[verifier::external_body]
fn ascii_to_string(b: &Vec<u8>) -> (r: String)
    requires
        forall|i: int| 0 <= i < b@.len() ==> b@[i] < 128,
    ensures
        r@ == b@.map_values(|x: u8| x as char),
{
    String::from_utf8(b.clone()).unwrap_or_default()
}

fn bytes_to_name(b: &Vec<u8>) -> (r: String)
    ensures
        r@ == name_of(b@),
{
    let mut clean: Vec<u8> = Vec::new();
    let mut k: usize = 0;
    while k < b.len()
        invariant
            k <= b.len(),
            clean@.len() == k,
            forall|i: int| 0 <= i < k ==> #[trigger] clean@[i] == (if b@[i] < 128 {
                b@[i]
            } else {
                63u8
            }),
        decreases b.len() - k,
    {
        let x = b[k];
        if x < 128 {
            clean.push(x);
        } else {
            clean.push(63);
        }
        k = k + 1;
    }
    let r = ascii_to_string(&clean);
    proof {
        assert(r@ =~= name_of(b@));
    }
    r
}


// ---------------------------------------------------------------------------
// The report machine: one line at a time
// ---------------------------------------------------------------------------

/// Bounds the machine maintains: everything numeric it carries fits the
/// 32-bit range its readers came from.
pub open spec fn parse_state_wf(st: ParseStateV) -> bool {
    &&& -0x8000_0000 <= st.selected_resolution.0 <= 0x8000_0000
    &&& -0x8000_0000 <= st.selected_resolution.1 <= 0x8000_0000
    &&& 0 <= st.selected_framerate <= 0xFFFF_FFFF
    &&& match st.current {
        Some(m) => {
            &&& -0x8000_0000 <= m.displayed_resolution.0 <= 0x8000_0000
            &&& -0x8000_0000 <= m.displayed_resolution.1 <= 0x8000_0000
        },
        None => true,
    }
}

/// An integer the report wrote is in the 32-bit range.
pub proof fn lemma_parse_int_bounds(t: Seq<u8>)
    ensures
        -0x8000_0000 <= parse_int_spec(t) <= 0x7FFF_FFFF,
{
    if t.len() > 0 && t[0] == 45 {
        let d = t.skip(1);
        if all_digits(d) && digits_val(d, d.len() as int) <= 0x8000_0000 {
            lemma_digits_val_nonneg(d, d.len() as int);
        }
    } else {
        if all_digits(t) && digits_val(t, t.len() as int) <= 0x7FFF_FFFF {
            lemma_digits_val_nonneg(t, t.len() as int);
        }
    }
}

/// The parser's running state, as mathematics.
#[verifier::ext_equal]
pub ghost struct ParseStateV {
    pub selected_framerate: int,
    pub selected_resolution: (int, int),
    pub monitors: Seq<MonitorV>,
    pub current: Option<MonitorV>,
    pub current_modes: Seq<ModeV>,
}

struct ParseState {
    selected_framerate: u32,
    selected_resolution: (i64, i64),
    monitors: Monitors,
    current: Option<Monitor>,
    current_modes: Vec<Mode>,
}

impl View for ParseState {
    type V = ParseStateV;

    closed spec fn view(&self) -> ParseStateV {
        ParseStateV {
            selected_framerate: self.selected_framerate as int,
            selected_resolution: (
                self.selected_resolution.0 as int,
                self.selected_resolution.1 as int,
            ),
            monitors: self.monitors.deep_view(),
            current: match self.current {
                Some(m) => Some(m@),
                None => None,
            },
            current_modes: self.current_modes.deep_view(),
        }
    }
}

pub open spec fn parse_init() -> ParseStateV {
    ParseStateV {
        selected_framerate: 0,
        selected_resolution: (0, 0),
        monitors: Seq::empty(),
        current: None,
        current_modes: Seq::empty(),
    }
}

/// Close the open record: it adopts the active resolution and rate its
/// own mode lines marked, a scale derived so the header footprint is the
/// active resolution over that scale (1.0 when that is meaningless), and
/// the collected modes.
pub open spec fn finish_spec(st: ParseStateV) -> ParseStateV {
    match st.current {
        None => st,
        Some(m0) => {
            let res = st.selected_resolution;
            let scale = if res.0 > 0 && m0.displayed_resolution.0 > 0 {
                let q = res.0 * 100 / m0.displayed_resolution.0;
                if 1 <= q <= 0xFFFF_FFFF {
                    q
                } else {
                    100
                }
            } else {
                100
            };
            let m = MonitorV {
                resolution: res,
                framerate: st.selected_framerate,
                scale: scale,
                available_resolutions: st.current_modes,
                ..m0
            };
            ParseStateV {
                monitors: st.monitors.push(m),
                current: None,
                current_modes: Seq::empty(),
                ..st
            }
        },
    }
}

fn clone_modes(v: &Vec<Mode>) -> (r: Vec<Mode>)
    ensures
        r.deep_view() == v.deep_view(),
{
    let r = v.clone();
    proof {
        assert forall|i: int| 0 <= i < v@.len() implies r.deep_view()[i] == v.deep_view()[i] by {
            assert(cloned::<Mode>(v@[i], r@[i]));
        }
        assert(r.deep_view() =~~= v.deep_view());
    }
    r
}

fn finish_state(st: &mut ParseState)
    requires
        parse_state_wf(old(st)@),
    ensures
        final(st)@ == finish_spec(old(st)@),
        parse_state_wf(final(st)@),
{
    if st.current.is_some() {
        let m0 = st.current.as_ref().unwrap().clone();
        st.current = None;
        let mut m = m0;
        m.resolution = st.selected_resolution;
        m.framerate = st.selected_framerate;
        m.scale = if st.selected_resolution.0 > 0 && m.displayed_resolution.0 > 0 {
            let q = (st.selected_resolution.0 as u64 * 100) / (m.displayed_resolution.0 as u64);
            if 1 <= q && q <= 0xFFFF_FFFF {
                q as u32
            } else {
                100
            }
        } else {
            100
        };
        m.available_resolutions = clone_modes(&st.current_modes);
        st.current_modes = Vec::new();
        st.monitors.push(m);
        proof {
            assert(st@ =~~= finish_spec(old(st)@));
        }
    }
}

fn has_primary(toks: &Vec<Vec<u8>>) -> (r: bool)
    ensures
        r == toks.deep_view().contains(primary_pat()),
{
    let pat = needle_primary();
    let mut i: usize = 0;
    while i < toks.len()
        invariant
            i <= toks.len(),
            pat@ == primary_pat(),
            forall|q: int| 0 <= q < i ==> toks.deep_view()[q] != primary_pat(),
        decreases toks.len() - i,
    {
        if eq_bytes(toks[i].as_slice(), &pat) {
            proof {
                assert(toks.deep_view()[i as int] =~= primary_pat());
                assert(toks.deep_view()[i as int] == primary_pat());
            }
            return true;
        }
        proof {
            assert(toks.deep_view()[i as int] =~= toks@[i as int]@);
            assert(toks.deep_view()[i as int] != primary_pat());
        }
        i = i + 1;
    }
    proof {
        if toks.deep_view().contains(primary_pat()) {
            let q = choose|q: int|
                0 <= q < toks.deep_view().len() && toks.deep_view()[q] == primary_pat();
        }
    }
    false
}

/// Open a fresh record from a header line; the active mode/rate pair
/// starts over, so a record never inherits the previous record's pair. A
/// malformed header closes the previous record and opens nothing.
pub open spec fn header_step_spec(st: ParseStateV, line: Seq<u8>) -> ParseStateV {
    let st1 = ParseStateV {
        selected_framerate: 0,
        selected_resolution: (0, 0),
        ..finish_spec(st)
    };
    let toks = tokens_of(line);
    if toks.len() == 0 {
        st1
    } else {
        let primary = toks.contains(primary_pat());
        let gi: int = if primary {
            3
        } else {
            2
        };
        if toks.len() <= gi {
            st1
        } else {
            let geometry = split_on(toks[gi], 43);
            if geometry.len() < 3 {
                st1
            } else {
                let res_p = split_on(geometry[0], 120);
                if res_p.len() != 2 {
                    st1
                } else {
                    ParseStateV {
                        current: Some(
                            MonitorV {
                                name: name_of(toks[0]),
                                resolution: (0, 0),
                                displayed_resolution: (
                                    parse_int_spec(res_p[0]),
                                    parse_int_spec(res_p[1]),
                                ),
                                available_resolutions: Seq::empty(),
                                scale: 100,
                                framerate: 0,
                                position: (
                                    parse_int_spec(geometry[1]),
                                    parse_int_spec(geometry[2]),
                                ),
                                is_primary: primary,
                                is_selected: false,
                                is_enabled: true,
                                left: None,
                                right: None,
                                up: None,
                                down: None,
                            },
                        ),
                        current_modes: Seq::empty(),
                        ..st1
                    }
                }
            }
        }
    }
}

#[verifier::rlimit(100)]
fn header_step(st: &mut ParseState, line: &[u8])
    requires
        parse_state_wf(old(st)@),
    ensures
        final(st)@ == header_step_spec(old(st)@, line@),
        parse_state_wf(final(st)@),
{
    finish_state(st);
    st.selected_framerate = 0;
    st.selected_resolution = (0, 0);
    let toks = tokenize(line);
    if toks.len() == 0 {
        return ;
    }
    let primary = has_primary(&toks);
    let gi: usize = if primary {
        3
    } else {
        2
    };
    if toks.len() <= gi {
        return ;
    }
    proof {
        assert(toks@[gi as int]@ =~= toks.deep_view()[gi as int]);
    }
    let geometry = split_bytes(toks[gi].as_slice(), 43);
    if geometry.len() < 3 {
        return ;
    }
    proof {
        assert(geometry@[0]@ =~= geometry.deep_view()[0]);
    }
    let res_p = split_bytes(geometry[0].as_slice(), 120);
    if res_p.len() != 2 {
        return ;
    }
    proof {
        assert(res_p@[0]@ =~= res_p.deep_view()[0]);
        assert(res_p@[1]@ =~= res_p.deep_view()[1]);
        assert(geometry@[1]@ =~= geometry.deep_view()[1]);
        assert(geometry@[2]@ =~= geometry.deep_view()[2]);
        assert(toks@[0]@ =~= toks.deep_view()[0]);
        lemma_parse_int_bounds(res_p.deep_view()[0]);
        lemma_parse_int_bounds(res_p.deep_view()[1]);
    }
    let w = parse_int(res_p[0].as_slice());
    let h = parse_int(res_p[1].as_slice());
    let x = parse_int(geometry[1].as_slice());
    let y = parse_int(geometry[2].as_slice());
    let name = bytes_to_name(&toks[0]);
    st.current = Some(
        Monitor {
            name,
            resolution: (0, 0),
            displayed_resolution: (w, h),
            available_resolutions: Vec::new(),
            scale: 100,
            framerate: 0,
            position: (x, y),
            is_primary: primary,
            is_selected: false,
            is_enabled: true,
            left: None,
            right: None,
            up: None,
            down: None,
        },
    );
    st.current_modes = Vec::new();
    proof {
        assert(st@ =~~= header_step_spec(old(st)@, line@));
    }
}


// ---------------------------------------------------------------------------
// Mode lines
// ---------------------------------------------------------------------------

/// One rate token folded into the collected rates; a starred token also
/// becomes the active rate at this resolution.
pub open spec fn rate_step(
    acc: (Seq<int>, int, (int, int)),
    tok: Seq<u8>,
    res: (int, int),
) -> (Seq<int>, int, (int, int)) {
    let active = trim_plus(tok).len() > 0 && trim_plus(tok).last() == 42;
    match parse_centi_spec(trim_plus_star(tok)) {
        Some(v) => (
            acc.0.push(v),
            if active {
                v
            } else {
                acc.1
            },
            if active {
                res
            } else {
                acc.2
            },
        ),
        None => acc,
    }
}

pub open spec fn rates_fold(
    toks: Seq<Seq<u8>>,
    k: int,
    res: (int, int),
    fr0: int,
    sr0: (int, int),
) -> (Seq<int>, int, (int, int))
    decreases k,
{
    if k <= 1 {
        (Seq::empty(), fr0, sr0)
    } else {
        rate_step(rates_fold(toks, k - 1, res, fr0, sr0), toks[k - 1], res)
    }
}

/// The collected rates are all in the 32-bit range, and the active pair
/// stays in range too.
pub proof fn lemma_rates_fold_bounds(
    toks: Seq<Seq<u8>>,
    k: int,
    res: (int, int),
    fr0: int,
    sr0: (int, int),
)
    requires
        0 <= fr0 <= 0xFFFF_FFFF,
        -0x8000_0000 <= sr0.0 <= 0x8000_0000,
        -0x8000_0000 <= sr0.1 <= 0x8000_0000,
        -0x8000_0000 <= res.0 <= 0x8000_0000,
        -0x8000_0000 <= res.1 <= 0x8000_0000,
    ensures
        ({
            let acc = rates_fold(toks, k, res, fr0, sr0);
            &&& 0 <= acc.1 <= 0xFFFF_FFFF
            &&& -0x8000_0000 <= acc.2.0 <= 0x8000_0000
            &&& -0x8000_0000 <= acc.2.1 <= 0x8000_0000
        }),
    decreases k,
{
    if k > 1 {
        lemma_rates_fold_bounds(toks, k - 1, res, fr0, sr0);
        let t = trim_plus_star(toks[k - 1]);
        if parse_centi_spec(t) is Some {
            let i = find_byte(t, 46);
            let w = t.take(i);
            if all_digits(w) {
                lemma_digits_val_nonneg(w, w.len() as int);
                if i < t.len() {
                    let fr = t.skip(i + 1);
                    if fr.len() == 2 && all_digits(fr) {
                        lemma_digits_val_nonneg(fr, 2);
                    }
                }
            }
        }
    }
}

/// The first mode slot holding `res`, or the length if none does.
pub open spec fn mode_slot(modes: Seq<ModeV>, res: (int, int)) -> int
    decreases modes.len(),
{
    if modes.len() == 0 {
        0
    } else if modes[0].resolution == res {
        0
    } else {
        1 + mode_slot(modes.drop_first(), res)
    }
}

pub proof fn lemma_mode_slot(modes: Seq<ModeV>, res: (int, int))
    ensures
        0 <= mode_slot(modes, res) <= modes.len(),
        mode_slot(modes, res) < modes.len() ==> modes[mode_slot(modes, res)].resolution == res,
        forall|q: int| 0 <= q < mode_slot(modes, res) ==> modes[q].resolution != res,
    decreases modes.len(),
{
    if modes.len() > 0 && modes[0].resolution != res {
        lemma_mode_slot(modes.drop_first(), res);
        assert forall|q: int|
            0 <= q < mode_slot(modes, res) implies modes[q].resolution != res by {
            if q > 0 {
                assert(modes.drop_first()[q - 1] == modes[q]);
            }
        }
    }
}

/// New rates joined onto the slot already holding this resolution, or a
/// fresh slot at the end.
pub open spec fn merge_mode(modes: Seq<ModeV>, res: (int, int), rates: Seq<int>) -> Seq<ModeV> {
    let i = mode_slot(modes, res);
    if i < modes.len() {
        modes.update(i, (ModeV { framerates: modes[i].framerates + rates, ..modes[i] }))
    } else {
        modes.push(ModeV { resolution: res, framerates: rates })
    }
}

/// A mode line while a record is open: note the mode's rates, and adopt
/// a starred rate (with its resolution) as the active pair.
pub open spec fn mode_step_spec(st: ParseStateV, line: Seq<u8>) -> ParseStateV {
    let toks = tokens_of(line);
    if toks.len() == 0 {
        st
    } else {
        let res_p = split_on(toks[0], 120);
        if res_p.len() != 2 {
            st
        } else {
            let res = (parse_int_spec(res_p[0]), parse_int_spec(res_p[1]));
            let acc = rates_fold(
                toks,
                toks.len() as int,
                res,
                st.selected_framerate,
                st.selected_resolution,
            );
            ParseStateV {
                selected_framerate: acc.1,
                selected_resolution: acc.2,
                current_modes: merge_mode(st.current_modes, res, acc.0),
                ..st
            }
        }
    }
}

#[verifier::rlimit(100)]
fn mode_step(st: &mut ParseState, line: &[u8])
    requires
        parse_state_wf(old(st)@),
    ensures
        final(st)@ == mode_step_spec(old(st)@, line@),
        parse_state_wf(final(st)@),
{
    let toks = tokenize(line);
    if toks.len() == 0 {
        return ;
    }
    proof {
        assert(toks@[0]@ =~= toks.deep_view()[0]);
    }
    let res_p = split_bytes(toks[0].as_slice(), 120);
    if res_p.len() != 2 {
        return ;
    }
    proof {
        assert(res_p@[0]@ =~= res_p.deep_view()[0]);
        assert(res_p@[1]@ =~= res_p.deep_view()[1]);
        lemma_parse_int_bounds(res_p.deep_view()[0]);
        lemma_parse_int_bounds(res_p.deep_view()[1]);
    }
    let rw = parse_int(res_p[0].as_slice());
    let rh = parse_int(res_p[1].as_slice());
    let ghost resv = (rw as int, rh as int);
    let mut rates: Vec<u32> = Vec::new();
    let mut k: usize = 1;
    proof {
        assert(rates@.map_values(|f: u32| f as int) =~= rates_fold(
            toks.deep_view(),
            1,
            resv,
            old(st)@.selected_framerate,
            old(st)@.selected_resolution,
        ).0);
    }
    while k < toks.len()
        invariant
            1 <= k <= toks.len(),
            parse_state_wf(old(st)@),
            resv == (rw as int, rh as int),
            -0x8000_0000 <= resv.0 <= 0x8000_0000,
            -0x8000_0000 <= resv.1 <= 0x8000_0000,
            st.selected_framerate == old(st).selected_framerate || true,
            ({
                let acc = rates_fold(
                    toks.deep_view(),
                    k as int,
                    resv,
                    old(st)@.selected_framerate,
                    old(st)@.selected_resolution,
                );
                &&& rates@.map_values(|f: u32| f as int) == acc.0
                &&& st@.selected_framerate == acc.1
                &&& st@.selected_resolution == acc.2
            }),
            st@.monitors == old(st)@.monitors,
            st@.current == old(st)@.current,
            st@.current_modes == old(st)@.current_modes,
        decreases toks.len() - k,
    {
        let tok = toks[k].as_slice();
        proof {
            assert(tok@ =~= toks.deep_view()[k as int]);
        }
        let e1 = trim_plus_len(tok);
        let active = e1 > 0 && tok[e1 - 1] == 42;
        proof {
            let tp = trim_plus(tok@);
            assert(tok@.take(e1 as int) == tp);
            if e1 > 0 {
                assert(tp.last() == tok@[e1 as int - 1]);
            }
            assert(active == (tp.len() > 0 && tp.last() == 42));
        }
        let e2 = trim_plus_star_len(tok);
        let cleaned = &tok[0..e2];
        proof {
            assert(cleaned@ =~= tok@.take(e2 as int));
            assert(cleaned@ == trim_plus_star(tok@));
        }
        match parse_centi(cleaned) {
            Some(v) => {
                rates.push(v);
                if active {
                    st.selected_framerate = v;
                    st.selected_resolution = (rw, rh);
                }
            },
            None => {},
        }
        proof {
            let acc = rates_fold(
                toks.deep_view(),
                k as int + 1,
                resv,
                old(st)@.selected_framerate,
                old(st)@.selected_resolution,
            );
            assert(rates@.map_values(|f: u32| f as int) =~= acc.0);
        }
        k = k + 1;
    }
    // fold the collected rates into the slot for this resolution
    let ghost rates_v = rates@.map_values(|f: u32| f as int);
    let ghost modes0 = st.current_modes.deep_view();
    let ghost resg = (rw as int, rh as int);
    let mut slot: usize = 0;
    while slot < st.current_modes.len()
        invariant_except_break
            slot <= st.current_modes.len(),
            modes0 == st.current_modes.deep_view(),
            resg == (rw as int, rh as int),
            forall|q: int| 0 <= q < slot ==> (#[trigger] modes0[q]).resolution != resg,
        ensures
            slot <= st.current_modes.len(),
            modes0 == st.current_modes.deep_view(),
            forall|q: int| 0 <= q < slot ==> (#[trigger] modes0[q]).resolution != resg,
            slot < st.current_modes.len() ==> modes0[slot as int].resolution == resg,
        decreases st.current_modes.len() - slot,
    {
        let m = &st.current_modes[slot];
        proof {
            assert(modes0[slot as int] =~= st.current_modes@[slot as int]@);
        }
        if m.resolution.0 == rw && m.resolution.1 == rh {
            proof {
                assert(modes0[slot as int].resolution == resg);
            }
            break ;
        }
        proof {
            assert(modes0[slot as int].resolution != resg);
        }
        slot = slot + 1;
    }
    proof {
        lemma_mode_slot(modes0, resg);
        assert(mode_slot(modes0, resg) == slot as int) by {
            let mi = mode_slot(modes0, resg);
            if mi < slot as int {
                assert(modes0[mi].resolution == resg);
            }
            if mi > slot as int {
                assert(modes0[slot as int].resolution != resg);
            }
        }
    }
    if slot < st.current_modes.len() {
        let mut mslot = st.current_modes[slot].clone();
        let ghost fr0 = mslot.framerates@;
        proof {
            assert(mslot@ == modes0[slot as int]);
        }
        let ghost res_keep = mslot.resolution;
        let mut j: usize = 0;
        while j < rates.len()
            invariant
                j <= rates.len(),
                mslot.framerates@ == fr0 + rates@.take(j as int),
                mslot.resolution == res_keep,
            decreases rates.len() - j,
        {
            let rv = rates[j];
            mslot.framerates.push(rv);
            proof {
                assert(mslot.framerates@ =~= fr0 + rates@.take(j as int + 1));
            }
            j = j + 1;
        }
        proof {
            assert(rates@.take(rates@.len() as int) =~= rates@);
            assert(mslot.framerates@ =~= fr0 + rates@);
        }
        st.current_modes.set(slot, mslot);
        proof {
            assert((fr0 + rates@).map_values(|f: u32| f as int) =~= fr0.map_values(
                |f: u32| f as int,
            ) + rates_v);
            assert(st.current_modes.deep_view() =~~= modes0.update(
                slot as int,
                (ModeV {
                    framerates: modes0[slot as int].framerates + rates_v,
                    ..modes0[slot as int]
                }),
            ));
        }
    } else {
        st.current_modes.push(Mode { resolution: (rw, rh), framerates: rates });
        proof {
            assert(st.current_modes.deep_view() =~~= modes0.push(
                ModeV { resolution: resg, framerates: rates_v },
            ));
        }
    }
    proof {
        lemma_rates_fold_bounds(
            toks.deep_view(),
            toks.deep_view().len() as int,
            resv,
            old(st)@.selected_framerate,
            old(st)@.selected_resolution,
        );
        assert(final(st)@ =~~= mode_step_spec(old(st)@, line@));
    }
}


// ---------------------------------------------------------------------------
// Lines and the whole report
// ---------------------------------------------------------------------------

/// What one line of the report does to the machine: a connected header
/// that is in use (ends in millimetre sizes) opens a record, a
/// disconnected line closes one, and anything else feeds the open record
/// its modes.
pub open spec fn line_step_spec(st: ParseStateV, line: Seq<u8>) -> ParseStateV {
    if contains_sub(line, connected_pat()) && line.len() >= 2 && line[line.len() - 1] == 109
        && line[line.len() - 2] == 109 {
        header_step_spec(st, line)
    } else if contains_sub(line, disconnected_pat()) {
        finish_spec(st)
    } else if st.current is Some {
        mode_step_spec(st, line)
    } else {
        st
    }
}

fn line_step(st: &mut ParseState, line: &[u8])
    requires
        parse_state_wf(old(st)@),
    ensures
        final(st)@ == line_step_spec(old(st)@, line@),
        parse_state_wf(final(st)@),
{
    let ncon = needle_connected();
    let is_header = contains_bytes(line, &ncon) && line.len() >= 2 && line[line.len() - 1] == 109
        && line[line.len() - 2] == 109;
    if is_header {
        header_step(st, line);
    } else {
        let ndis = needle_disconnected();
        if contains_bytes(line, &ndis) {
            finish_state(st);
        } else if st.current.is_some() {
            mode_step(st, line);
        }
    }
}

pub open spec fn parse_fold(lines: Seq<Seq<u8>>, k: int) -> ParseStateV
    decreases k,
{
    if k <= 0 {
        parse_init()
    } else {
        line_step_spec(parse_fold(lines, k - 1), lines[k - 1])
    }
}

/// The model a report text denotes: the machine run over its lines, with
/// the last open record closed at the end.
pub open spec fn parse_monitor_info_spec(text: Seq<u8>) -> Seq<MonitorV> {
    let lines = split_lines_of(text);
    finish_spec(parse_fold(lines, lines.len() as int)).monitors
}

/// Build the monitor model from a raw query report. Malformed lines are
/// skipped; what remains is exactly `parse_monitor_info_spec` of the
/// text. Neighbor links start out absent; callers derive them with the
/// proximity pass.
pub fn parse_monitor_info(text: &[u8]) -> (monitors: Monitors)
    ensures
        mons_view(monitors) == parse_monitor_info_spec(text@),
{
    let lines = split_lines(text);
    let mut st = ParseState {
        selected_framerate: 0,
        selected_resolution: (0, 0),
        monitors: Vec::new(),
        current: None,
        current_modes: Vec::new(),
    };
    proof {
        assert(st@ =~~= parse_init());
    }
    let mut k: usize = 0;
    while k < lines.len()
        invariant
            k <= lines.len(),
            lines.deep_view() == split_lines_of(text@),
            st@ == parse_fold(lines.deep_view(), k as int),
            parse_state_wf(st@),
        decreases lines.len() - k,
    {
        proof {
            assert(lines@[k as int]@ =~= lines.deep_view()[k as int]);
        }
        line_step(&mut st, lines[k].as_slice());
        k = k + 1;
    }
    finish_state(&mut st);
    st.monitors
}


// ---------------------------------------------------------------------------
// Mode tables stay duplicate-free
// ---------------------------------------------------------------------------

/// No two slots of a mode table hold the same resolution.
pub open spec fn modes_unique(modes: Seq<ModeV>) -> bool {
    forall|a: int, b: int|
        0 <= a < b < modes.len() ==> (#[trigger] modes[a]).resolution != (
        #[trigger] modes[b]).resolution
}

proof fn lemma_merge_mode_unique(modes: Seq<ModeV>, res: (int, int), rates: Seq<int>)
    requires
        modes_unique(modes),
    ensures
        modes_unique(merge_mode(modes, res, rates)),
{
    lemma_mode_slot(modes, res);
    let i = mode_slot(modes, res);
    let r = merge_mode(modes, res, rates);
    if i < modes.len() {
        assert forall|a: int, b: int|
            0 <= a < b < r.len() implies (#[trigger] r[a]).resolution != (
        #[trigger] r[b]).resolution by {
            assert(r[a].resolution == modes[a].resolution);
            assert(r[b].resolution == modes[b].resolution);
        }
    } else {
        assert forall|a: int, b: int|
            0 <= a < b < r.len() implies (#[trigger] r[a]).resolution != (
        #[trigger] r[b]).resolution by {
            if b < modes.len() {
            } else {
                assert(r[b].resolution == res);
                assert(modes[a].resolution != res);
            }
        }
    }
}

/// Every collected table — finished or still open — is duplicate-free.
pub open spec fn state_modes_unique(st: ParseStateV) -> bool {
    &&& modes_unique(st.current_modes)
    &&& forall|k: int|
        0 <= k < st.monitors.len() ==> modes_unique(
            (#[trigger] st.monitors[k]).available_resolutions,
        )
}

proof fn lemma_finish_modes_unique(st: ParseStateV)
    requires
        state_modes_unique(st),
    ensures
        state_modes_unique(finish_spec(st)),
{
    let r = finish_spec(st);
    assert forall|k: int| 0 <= k < r.monitors.len() implies modes_unique(
        (#[trigger] r.monitors[k]).available_resolutions,
    ) by {
        if k < st.monitors.len() {
            assert(r.monitors[k] == st.monitors[k]);
        }
    }
}

proof fn lemma_line_step_modes_unique(st: ParseStateV, line: Seq<u8>)
    requires
        state_modes_unique(st),
    ensures
        state_modes_unique(line_step_spec(st, line)),
{
    if contains_sub(line, connected_pat()) && line.len() >= 2 && line[line.len() - 1] == 109
        && line[line.len() - 2] == 109 {
        lemma_finish_modes_unique(st);
    } else if contains_sub(line, disconnected_pat()) {
        lemma_finish_modes_unique(st);
    } else if st.current is Some {
        let toks = tokens_of(line);
        if toks.len() > 0 {
            let res_p = split_on(toks[0], 120);
            if res_p.len() == 2 {
                let res = (parse_int_spec(res_p[0]), parse_int_spec(res_p[1]));
                let acc = rates_fold(
                    toks,
                    toks.len() as int,
                    res,
                    st.selected_framerate,
                    st.selected_resolution,
                );
                lemma_merge_mode_unique(st.current_modes, res, acc.0);
            }
        }
    }
}

proof fn lemma_parse_fold_modes_unique(lines: Seq<Seq<u8>>, k: int)
    ensures
        state_modes_unique(parse_fold(lines, k)),
    decreases k,
{
    if k <= 0 {
    } else {
        lemma_parse_fold_modes_unique(lines, k - 1);
        lemma_line_step_modes_unique(parse_fold(lines, k - 1), lines[k - 1]);
    }
}

/// Invariant of the parsed model: every monitor's mode table lists each
/// resolution once — what the sorted-resolution list and the option
/// cursors rely on.
pub proof fn lemma_parse_modes_unique(text: Seq<u8>)
    ensures
        forall|k: int|
            0 <= k < parse_monitor_info_spec(text).len() ==> modes_unique(
                (#[trigger] parse_monitor_info_spec(text)[k]).available_resolutions,
            ),
{
    let lines = split_lines_of(text);
    lemma_parse_fold_modes_unique(lines, lines.len() as int);
    lemma_finish_modes_unique(parse_fold(lines, lines.len() as int));
}

} // verus!
