//! Verified helpers over strings viewed as sequences of characters:
//! containment, splitting, joining, trimming, and decimal rendering.

use vstd::prelude::*;

verus! {

/// The views of a sequence of strings.
pub open spec fn seq_views(ss: Seq<String>) -> Seq<Seq<char>> {
    ss.map_values(|s: String| s@)
}

/// Whether the character `c` occurs in `s`.
pub open spec fn seq_contains_char(s: Seq<char>, c: char) -> bool {
    exists|i: int| 0 <= i < s.len() && s[i] == c
}

/// Whether the string holds the character `c`.
pub fn str_contains_char(s: &str, c: char) -> (r: bool)
    ensures
        r == seq_contains_char(s@, c),
{
    let n: usize = s.unicode_len();
    let mut i: usize = 0;
    while i < n
        invariant
            n == s@.len(),
            0 <= i <= n,
            forall|j: int| 0 <= j < i ==> s@[j] != c,
        decreases n - i,
    {
        if s.get_char(i) == c {
            return true;
        }
        i = i + 1;
    }
    false
}

/// Whether some string of `ss` reads `t`.
pub open spec fn seq_contains_string(ss: Seq<String>, t: Seq<char>) -> bool {
    exists|i: int| 0 <= i < ss.len() && ss[i]@ == t
}

/// Whether some element of `v` equals `t`.
pub fn strings_contain(v: &Vec<String>, t: &String) -> (r: bool)
    ensures
        r == seq_contains_string(v@, t@),
{
    let n: usize = v.len();
    let mut i: usize = 0;
    while i < n
        invariant
            n == v@.len(),
            0 <= i <= n,
            forall|j: int| 0 <= j < i ==> v@[j]@ != t@,
        decreases n - i,
    {
        if v[i].eq(t) {
            return true;
        }
        i = i + 1;
    }
    false
}

/// The decimal digit `d` as a character.
pub open spec fn spec_digit_char(d: nat) -> char {
    if d == 0 {
        '0'
    } else if d == 1 {
        '1'
    } else if d == 2 {
        '2'
    } else if d == 3 {
        '3'
    } else if d == 4 {
        '4'
    } else if d == 5 {
        '5'
    } else if d == 6 {
        '6'
    } else if d == 7 {
        '7'
    } else if d == 8 {
        '8'
    } else {
        '9'
    }
}

/// The decimal rendering of a natural number, without leading zeroes.
pub open spec fn spec_u64_dec(n: nat) -> Seq<char>
    decreases n,
{
    if n < 10 {
        seq![spec_digit_char(n)]
    } else {
        spec_u64_dec(n / 10).push(spec_digit_char(n % 10))
    }
}

/// The decimal rendering of an integer: a minus sign for negative values,
/// then the digits of the magnitude.
pub open spec fn spec_i64_dec(i: int) -> Seq<char> {
    if i >= 0 {
        spec_u64_dec(i as nat)
    } else {
        seq!['-'] + spec_u64_dec((-i) as nat)
    }
}

fn digit_str(d: u64) -> (r: &'static str)
    requires
        d < 10,
    ensures
        r@ == seq![spec_digit_char(d as nat)],
{
    proof {
        reveal_strlit("0");
        reveal_strlit("1");
        reveal_strlit("2");
        reveal_strlit("3");
        reveal_strlit("4");
        reveal_strlit("5");
        reveal_strlit("6");
        reveal_strlit("7");
        reveal_strlit("8");
        reveal_strlit("9");
    }
    let r: &'static str = if d == 0 {
        "0"
    } else if d == 1 {
        "1"
    } else if d == 2 {
        "2"
    } else if d == 3 {
        "3"
    } else if d == 4 {
        "4"
    } else if d == 5 {
        "5"
    } else if d == 6 {
        "6"
    } else if d == 7 {
        "7"
    } else if d == 8 {
        "8"
    } else {
        "9"
    };
    proof {
        assert(r@ =~= seq![spec_digit_char(d as nat)]);
    }
    r
}

/// The rendering of a list of digits read from the last to the first.
spec fn spec_render_rev(ds: Seq<u64>) -> Seq<char>
    decreases ds.len(),
{
    if ds.len() == 0 {
        Seq::empty()
    } else {
        seq![spec_digit_char(ds.last() as nat)] + spec_render_rev(ds.drop_last())
    }
}

/// Renders `n` in decimal.
pub fn u64_to_dec_string(n: u64) -> (r: String)
    ensures
        r@ == spec_u64_dec(n as nat),
{
    let mut digits: Vec<u64> = Vec::new();
    let mut rem: u64 = n;
    while rem >= 10
        invariant
            spec_u64_dec(n as nat) =~= spec_u64_dec(rem as nat) + spec_render_rev(digits@),
            forall|k: int| 0 <= k < digits@.len() ==> digits@[k] < 10,
        decreases rem,
    {
        let d: u64 = rem % 10;
        let ghost prev: u64 = rem;
        let ghost gd: Seq<u64> = digits@;
        digits.push(d);
        rem = rem / 10;
        proof {
            let dch = spec_digit_char(d as nat);
            assert(spec_u64_dec(prev as nat) == spec_u64_dec(rem as nat).push(dch));
            assert(spec_u64_dec(rem as nat).push(dch) =~= spec_u64_dec(rem as nat) + seq![dch]);
            assert(digits@.last() == d);
            assert(digits@.drop_last() =~= gd);
            assert(spec_render_rev(digits@) == seq![dch] + spec_render_rev(gd));
            assert(spec_u64_dec(rem as nat) + spec_render_rev(digits@) =~= (spec_u64_dec(
                rem as nat,
            ) + seq![dch]) + spec_render_rev(gd));
            assert(spec_u64_dec(n as nat) =~= spec_u64_dec(rem as nat) + spec_render_rev(digits@));
        }
    }
    let ghost gd: Seq<u64> = digits@;
    digits.push(rem);
    proof {
        let dch = spec_digit_char(rem as nat);
        assert(spec_u64_dec(rem as nat) == seq![dch]);
        assert(digits@.last() == rem);
        assert(digits@.drop_last() =~= gd);
        assert(spec_render_rev(digits@) == seq![dch] + spec_render_rev(gd));
        assert(spec_u64_dec(n as nat) =~= spec_render_rev(digits@));
    }
    let ghost all: Seq<u64> = digits@;
    let mut s = String::new();
    let mut i: usize = digits.len();
    proof {
        assert(digits@.take(i as int) =~= digits@);
        assert(s@ + spec_render_rev(digits@) =~= spec_render_rev(digits@));
    }
    while i > 0
        invariant
            all == digits@,
            0 <= i <= digits@.len(),
            forall|k: int| 0 <= k < digits@.len() ==> digits@[k] < 10,
            s@ + spec_render_rev(digits@.take(i as int)) =~= spec_render_rev(digits@),
        decreases i,
    {
        let ghost before: int = i as int;
        let ghost sold: Seq<char> = s@;
        i = i - 1;
        let piece = digit_str(digits[i]);
        s.append(piece);
        proof {
            let dch = spec_digit_char(digits@[before - 1] as nat);
            assert(s@ =~= sold + seq![dch]);
            assert(digits@.take(before).len() == before);
            assert(digits@.take(before).last() == digits@[before - 1]);
            assert(digits@.take(before).drop_last() =~= digits@.take(before - 1));
            assert(spec_render_rev(digits@.take(before)) == seq![dch] + spec_render_rev(
                digits@.take(before - 1),
            ));
            assert((sold + seq![dch]) + spec_render_rev(digits@.take(before - 1)) =~= sold + (
            seq![dch] + spec_render_rev(digits@.take(before - 1))));
            assert(s@ + spec_render_rev(digits@.take(i as int)) =~= spec_render_rev(digits@));
        }
    }
    proof {
        assert(digits@.take(0) =~= Seq::<u64>::empty());
        assert(spec_render_rev(digits@.take(0)) =~= Seq::<char>::empty());
        assert(s@ + Seq::<char>::empty() =~= s@);
        assert(s@ =~= spec_u64_dec(n as nat));
    }
    s
}

/// Renders `i` in decimal, with a leading minus sign when negative.
pub fn i64_to_dec_string(i: i64) -> (r: String)
    ensures
        r@ == spec_i64_dec(i as int),
{
    if i >= 0 {
        u64_to_dec_string(i as u64)
    } else {
        let m: u64 = ((-(i + 1)) as u64) + 1;
        proof {
            assert(m as nat == (-(i as int)) as nat);
            reveal_strlit("-");
        }
        let mut s = String::from_str("-");
        let rest = u64_to_dec_string(m);
        s.append(rest.as_str());
        proof {
            assert(s@ =~= spec_i64_dec(i as int));
        }
        s
    }
}

/// Splitting on `c`: segments between occurrences of `c`, in order.
/// An empty sequence yields one empty segment, as splitting a string does.
pub open spec fn spec_split(s: Seq<char>, c: char) -> Seq<Seq<char>>
    decreases s.len(),
{
    if s.len() == 0 {
        seq![Seq::<char>::empty()]
    } else {
        let prev = spec_split(s.drop_last(), c);
        if s.last() == c {
            prev.push(Seq::<char>::empty())
        } else {
            prev.update(prev.len() - 1, prev.last().push(s.last()))
        }
    }
}

/// Splits `s` at every occurrence of `c`.
pub fn split_char(s: &str, c: char) -> (r: Vec<String>)
    ensures
        seq_views(r@) == spec_split(s@, c),
{
    let n: usize = s.unicode_len();
    let mut segs: Vec<String> = Vec::new();
    let mut st: usize = 0;
    let mut i: usize = 0;
    proof {
        assert(s@.take(0) =~= Seq::<char>::empty());
        assert(s@.subrange(0, 0) =~= Seq::<char>::empty());
        assert(seq_views(segs@).push(s@.subrange(0, 0)) =~= seq![Seq::<char>::empty()]);
        assert(spec_split(s@.take(0), c) == seq![Seq::<char>::empty()]);
    }
    while i < n
        invariant
            n == s@.len(),
            0 <= st <= i <= n,
            seq_views(segs@).push(s@.subrange(st as int, i as int)) =~= spec_split(
                s@.take(i as int),
                c,
            ),
            forall|j: int| st <= j < i ==> s@[j] != c,
        decreases n - i,
    {
        let ghost gsegs: Seq<String> = segs@;
        let ghost gst: int = st as int;
        let ghost gi: int = i as int;
        if s.get_char(i) == c {
            let seg = s.substring_char(st, i).to_owned();
            segs.push(seg);
            st = i + 1;
            proof {
                assert(s@.take(gi + 1).last() == c);
                assert(s@.take(gi + 1).drop_last() =~= s@.take(gi));
                assert(spec_split(s@.take(gi + 1), c) == spec_split(s@.take(gi), c).push(
                    Seq::<char>::empty(),
                ));
                assert(seq_views(segs@) =~= seq_views(gsegs).push(s@.subrange(gst, gi)));
                assert(s@.subrange(gi + 1, gi + 1) =~= Seq::<char>::empty());
                assert(seq_views(segs@).push(s@.subrange(gi + 1, gi + 1)) =~= (seq_views(
                    gsegs,
                ).push(s@.subrange(gst, gi))).push(Seq::<char>::empty()));
            }
        } else {
            proof {
                assert(s@.take(gi + 1).last() == s@[gi]);
                assert(s@.take(gi + 1).drop_last() =~= s@.take(gi));
                let prev = spec_split(s@.take(gi), c);
                assert(prev == seq_views(gsegs).push(s@.subrange(gst, gi)));
                assert(prev.len() == seq_views(gsegs).len() + 1);
                assert(prev.last() == s@.subrange(gst, gi));
                assert(spec_split(s@.take(gi + 1), c) == prev.update(
                    prev.len() - 1,
                    prev.last().push(s@[gi]),
                ));
                assert(s@.subrange(gst, gi).push(s@[gi]) =~= s@.subrange(gst, gi + 1));
                assert(prev.update(prev.len() - 1, s@.subrange(gst, gi + 1)) =~= seq_views(
                    gsegs,
                ).push(s@.subrange(gst, gi + 1)));
            }
        }
        i = i + 1;
    }
    let ghost gsegs: Seq<String> = segs@;
    let seg = s.substring_char(st, n).to_owned();
    segs.push(seg);
    proof {
        assert(s@.take(n as int) =~= s@);
        assert(seq_views(segs@) =~= seq_views(gsegs).push(s@.subrange(st as int, n as int)));
    }
    segs
}

/// Joining: the parts in order, with `sep` between neighbours.
pub open spec fn spec_join(parts: Seq<Seq<char>>, sep: Seq<char>) -> Seq<char>
    decreases parts.len(),
{
    if parts.len() == 0 {
        Seq::empty()
    } else if parts.len() == 1 {
        parts[0]
    } else {
        spec_join(parts.drop_last(), sep) + sep + parts.last()
    }
}

/// Joins the strings of `parts` with `sep` between neighbours.
pub fn join_strings(parts: &Vec<String>, sep: &str) -> (r: String)
    ensures
        r@ == spec_join(seq_views(parts@), sep@),
{
    let mut s = String::new();
    let n: usize = parts.len();
    let mut i: usize = 0;
    while i < n
        invariant
            n == parts@.len(),
            0 <= i <= n,
            s@ =~= spec_join(seq_views(parts@).take(i as int), sep@),
        decreases n - i,
    {
        let ghost gi: int = i as int;
        let ghost views: Seq<Seq<char>> = seq_views(parts@);
        if i > 0 {
            s.append(sep);
        }
        s.append(parts[i].as_str());
        proof {
            assert(views.take(gi + 1).last() == views[gi]);
            assert(views.take(gi + 1).drop_last() =~= views.take(gi));
            if gi == 0 {
                assert(views.take(1).len() == 1);
                assert(views.take(1)[0] == views[0]);
                assert(spec_join(views.take(1), sep@) == views[0]);
                assert(s@ =~= spec_join(views.take(1), sep@));
            } else {
                assert(spec_join(views.take(gi + 1), sep@) == spec_join(views.take(gi), sep@)
                    + sep@ + views[gi]);
                assert(s@ =~= spec_join(views.take(gi + 1), sep@));
            }
        }
        i = i + 1;
    }
    proof {
        assert(seq_views(parts@).take(n as int) =~= seq_views(parts@));
    }
    s
}

/// What is left of `s` once leading spaces are dropped.
pub open spec fn spec_trim_front(s: Seq<char>) -> Seq<char>
    decreases s.len(),
{
    if s.len() > 0 && s[0] == ' ' {
        spec_trim_front(s.drop_first())
    } else {
        s
    }
}

/// What is left of `s` once trailing spaces are dropped.
pub open spec fn spec_trim_back(s: Seq<char>) -> Seq<char>
    decreases s.len(),
{
    if s.len() > 0 && s.last() == ' ' {
        spec_trim_back(s.drop_last())
    } else {
        s
    }
}

/// `s` without its leading and trailing spaces.
pub open spec fn spec_trim(s: Seq<char>) -> Seq<char> {
    spec_trim_back(spec_trim_front(s))
}

proof fn lemma_trim_front_skip(s: Seq<char>, k: int)
    requires
        0 <= k <= s.len(),
        forall|j: int| 0 <= j < k ==> s[j] == ' ',
        k == s.len() || s[k] != ' ',
    ensures
        spec_trim_front(s) == s.skip(k),
    decreases k,
{
    if k == 0 {
        assert(s.skip(0) =~= s);
    } else {
        assert(s[0] == ' ');
        lemma_trim_front_skip(s.drop_first(), k - 1);
        assert(s.drop_first().skip(k - 1) =~= s.skip(k));
    }
}

proof fn lemma_trim_back_take(s: Seq<char>, k: int)
    requires
        0 <= k <= s.len(),
        forall|j: int| k <= j < s.len() ==> s[j] == ' ',
        k == 0 || s[k - 1] != ' ',
    ensures
        spec_trim_back(s) == s.take(k),
    decreases s.len(),
{
    if s.len() == k {
        assert(s.take(k) =~= s);
    } else {
        assert(s.last() == ' ');
        lemma_trim_back_take(s.drop_last(), k);
        assert(s.drop_last().take(k) =~= s.take(k));
    }
}

/// Drops the spaces at both ends of `s`.
pub fn trim_spaces(s: &str) -> (r: String)
    ensures
        r@ == spec_trim(s@),
{
    let n: usize = s.unicode_len();
    let mut b: usize = 0;
    while b < n && s.get_char(b) == ' '
        invariant
            n == s@.len(),
            0 <= b <= n,
            forall|j: int| 0 <= j < b ==> s@[j] == ' ',
        decreases n - b,
    {
        b = b + 1;
    }
    let mut e: usize = n;
    while e > b && s.get_char(e - 1) == ' '
        invariant
            n == s@.len(),
            b <= e <= n,
            forall|j: int| e <= j < n ==> s@[j] == ' ',
        decreases e,
    {
        e = e - 1;
    }
    let r = s.substring_char(b, e).to_owned();
    proof {
        lemma_trim_front_skip(s@, b as int);
        let t = s@.skip(b as int);
        assert forall|j: int| (e - b) <= j < t.len() implies t[j] == ' ' by {
            assert(t[j] == s@[j + b]);
        }
        if e > b {
            assert(t[e - b - 1] == s@[e - 1]);
        }
        lemma_trim_back_take(t, e - b);
        assert(t.take(e - b) =~= s@.subrange(b as int, e as int));
    }
    r
}

} // verus!
