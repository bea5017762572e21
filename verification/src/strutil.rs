//! Character-level string utilities: splitting, joining, trimming and
//! decimal rendering, each specified over `Seq<char>` views.

use vstd::prelude::*;

verus! {

// ---------------------------------------------------------------------------
// Character classes
// ---------------------------------------------------------------------------

/// Whether `c` is whitespace, as trimming of header values and line ends
/// understands it: std's Unicode `White_Space` classification, which
/// covers space, tab, carriage return and line feed among others.
pub uninterp spec fn is_space_char(c: char) -> bool;

/// Whether `c` counts as whitespace for trimming.
/// Relies on `char::is_whitespace`: the Unicode `White_Space` property, a
/// classification of the character alone by fixed tables.
#[verifier::external_body]
fn is_space(c: char) -> (r: bool)
    ensures
        r == is_space_char(c),
{
    c.is_whitespace()
}

// ---------------------------------------------------------------------------
// Equality
// ---------------------------------------------------------------------------

/// Character-wise string equality.
pub fn eq_str(a: &str, b: &str) -> (r: bool)
    ensures
        r == (a@ == b@),
{
    let n = a.unicode_len();
    if n != b.unicode_len() {
        return false;
    }
    let mut i: usize = 0;
    while i < n
        invariant
            n == a@.len(),
            n == b@.len(),
            i <= n,
            forall|j: int| 0 <= j < i ==> a@[j] == b@[j],
        decreases n - i,
    {
        if a.get_char(i) != b.get_char(i) {
            return false;
        }
        i = i + 1;
    }
    proof {
        assert(a@ =~= b@);
    }
    true
}

// ---------------------------------------------------------------------------
// Splitting
// ---------------------------------------------------------------------------

/// The segments of `s` between occurrences of `sep`. There is always at
/// least one segment, and `sep` occurs in none of them.
pub open spec fn split_chars(s: Seq<char>, sep: char) -> Seq<Seq<char>>
    decreases s.len(),
{
    if s.len() == 0 {
        seq![Seq::<char>::empty()]
    } else {
        let rest = split_chars(s.subrange(1, s.len() as int), sep);
        if s[0] == sep {
            seq![Seq::<char>::empty()] + rest
        } else {
            seq![seq![s[0]] + rest[0]] + rest.subrange(1, rest.len() as int)
        }
    }
}

pub proof fn lemma_split_chars_nonempty(s: Seq<char>, sep: char)
    ensures
        split_chars(s, sep).len() >= 1,
    decreases s.len(),
{
    if s.len() > 0 {
        lemma_split_chars_nonempty(s.subrange(1, s.len() as int), sep);
    }
}

/// Splits `s` on every occurrence of `sep`.
pub fn split_str(s: &str, sep: char) -> (parts: Vec<String>)
    ensures
        parts.deep_view() == split_chars(s@, sep),
{
    let n = s.unicode_len();
    let mut parts: Vec<String> = Vec::new();
    let mut start: usize = 0;
    let mut i: usize = 0;
    proof {
        assert(s@.subrange(0, n as int) =~= s@);
        lemma_split_chars_nonempty(s@, sep);
        let rem0 = split_chars(s@, sep);
        assert(parts.deep_view() =~= Seq::<Seq<char>>::empty());
        assert(s@.subrange(0, 0) =~= Seq::<char>::empty());
        assert(s@.subrange(0, 0) + rem0[0] =~= rem0[0]);
        assert(split_chars(s@, sep) =~= parts.deep_view() + seq![s@.subrange(0, 0) + rem0[0]]
            + rem0.subrange(1, rem0.len() as int)) by {
            assert(rem0 =~= seq![rem0[0]] + rem0.subrange(1, rem0.len() as int));
        };
    }
    while i < n
        invariant
            n == s@.len(),
            start <= i <= n,
            split_chars(s@.subrange(i as int, n as int), sep).len() >= 1,
            ({
                let rem = split_chars(s@.subrange(i as int, n as int), sep);
                split_chars(s@, sep) =~= parts.deep_view() + seq![
                    s@.subrange(start as int, i as int) + rem[0],
                ] + rem.subrange(1, rem.len() as int)
            }),
        decreases n - i,
    {
        let ghost rem = split_chars(s@.subrange(i as int, n as int), sep);
        let ghost rem2 = split_chars(s@.subrange(i as int + 1, n as int), sep);
        proof {
            lemma_split_chars_nonempty(s@.subrange(i as int + 1, n as int), sep);
            assert(s@.subrange(i as int, n as int).subrange(
                1,
                s@.subrange(i as int, n as int).len() as int,
            ) =~= s@.subrange(i as int + 1, n as int));
            assert(s@.subrange(i as int, n as int)[0] == s@[i as int]);
        }
        let c = s.get_char(i);
        if c == sep {
            // `rem == seq![empty] + rem2`: the current segment ends here.
            let seg = s.substring_char(start, i).to_owned();
            proof {
                assert(rem =~= seq![Seq::<char>::empty()] + rem2);
                assert(rem[0] =~= Seq::<char>::empty());
                assert(rem.subrange(1, rem.len() as int) =~= rem2);
                assert(s@.subrange(start as int, i as int) + rem[0] =~= s@.subrange(
                    start as int,
                    i as int,
                ));
            }
            let ghost old_dv = parts.deep_view();
            parts.push(seg);
            proof {
                assert(parts.deep_view() =~= old_dv.push(s@.subrange(start as int, i as int)));
                let r2 = rem2;
                assert(split_chars(s@, sep) =~= parts.deep_view() + seq![
                    s@.subrange(i as int + 1, i as int + 1) + r2[0],
                ] + r2.subrange(1, r2.len() as int)) by {
                    assert(s@.subrange(i as int + 1, i as int + 1) =~= Seq::<char>::empty());
                    assert(s@.subrange(i as int + 1, i as int + 1) + r2[0] =~= r2[0]);
                    assert(old_dv + seq![s@.subrange(start as int, i as int)] + r2.subrange(
                        1,
                        r2.len() as int,
                    ) =~= parts.deep_view() + r2.subrange(1, r2.len() as int));
                };
            }
            start = i + 1;
        } else {
            proof {
                assert(rem =~= seq![seq![s@[i as int]] + rem2[0]] + rem2.subrange(
                    1,
                    rem2.len() as int,
                ));
                assert(rem[0] =~= seq![s@[i as int]] + rem2[0]);
                assert(rem.subrange(1, rem.len() as int) =~= rem2.subrange(1, rem2.len() as int));
                assert(s@.subrange(start as int, i as int + 1) =~= s@.subrange(
                    start as int,
                    i as int,
                ).push(s@[i as int]));
                assert(s@.subrange(start as int, i as int) + rem[0] =~= s@.subrange(
                    start as int,
                    i as int + 1,
                ) + rem2[0]);
            }
        }
        i = i + 1;
    }
    let seg = s.substring_char(start, n).to_owned();
    let ghost old_dv = parts.deep_view();
    parts.push(seg);
    proof {
        let rem = split_chars(s@.subrange(n as int, n as int), sep);
        assert(s@.subrange(n as int, n as int) =~= Seq::<char>::empty());
        assert(rem =~= seq![Seq::<char>::empty()]);
        assert(parts.deep_view() =~= old_dv.push(s@.subrange(start as int, n as int)));
        assert(split_chars(s@, sep) =~= parts.deep_view());
    }
    parts
}

// ---------------------------------------------------------------------------
// Joining
// ---------------------------------------------------------------------------

/// The segments of `parts` glued back together with `sep` between them.
pub open spec fn join_chars(parts: Seq<Seq<char>>, sep: char) -> Seq<char>
    decreases parts.len(),
{
    if parts.len() == 0 {
        Seq::<char>::empty()
    } else if parts.len() == 1 {
        parts[0]
    } else {
        parts[0] + seq![sep] + join_chars(parts.subrange(1, parts.len() as int), sep)
    }
}

pub proof fn lemma_join_chars_push(parts: Seq<Seq<char>>, sep: char, x: Seq<char>)
    requires
        parts.len() >= 1,
    ensures
        join_chars(parts.push(x), sep) == join_chars(parts, sep) + seq![sep] + x,
    decreases parts.len(),
{
    if parts.len() == 1 {
        assert(parts.push(x).subrange(1, 2) =~= seq![x]);
        assert(join_chars(seq![x], sep) == x);
        assert(join_chars(parts.push(x), sep) =~= parts[0] + seq![sep] + x);
        assert(join_chars(parts, sep) + seq![sep] + x =~= parts[0] + seq![sep] + x);
    } else {
        let tail = parts.subrange(1, parts.len() as int);
        lemma_join_chars_push(tail, sep, x);
        assert(parts.push(x).subrange(1, parts.len() as int + 1) =~= tail.push(x));
        assert(join_chars(parts.push(x), sep) =~= parts[0] + seq![sep] + join_chars(
            tail.push(x),
            sep,
        ));
        assert(parts[0] + seq![sep] + (join_chars(tail, sep) + seq![sep] + x) =~= join_chars(
            parts,
            sep,
        ) + seq![sep] + x);
    }
}

/// Joins `parts[from..]` with `/` between the segments, as a wildcard
/// capture rebuilds the tail of a path.
pub fn join_slash_from(parts: &Vec<String>, from: usize) -> (r: String)
    requires
        from <= parts@.len(),
    ensures
        r@ == join_chars(parts.deep_view().subrange(from as int, parts.deep_view().len() as int), '/'),
{
    let n = parts.len();
    proof {
        reveal_strlit("/");
    }
    if from == n {
        proof {
            assert(parts.deep_view().subrange(from as int, n as int) =~= Seq::<Seq<char>>::empty());
        }
        return String::new();
    }
    let mut r = parts[from].clone();
    let mut i: usize = from + 1;
    proof {
        assert(parts.deep_view().subrange(from as int, from as int + 1) =~= seq![
            parts.deep_view()[from as int],
        ]);
    }
    while i < n
        invariant
            from < i <= n,
            n == parts@.len(),
            parts.deep_view().len() == n,
            r@ == join_chars(parts.deep_view().subrange(from as int, i as int), '/'),
        decreases n - i,
    {
        let ghost pre = parts.deep_view().subrange(from as int, i as int);
        proof {
            reveal_strlit("/");
            assert("/"@ =~= seq!['/']);
            lemma_join_chars_push(pre, '/', parts.deep_view()[i as int]);
            assert(parts.deep_view().subrange(from as int, i as int + 1) =~= pre.push(
                parts.deep_view()[i as int],
            ));
        }
        r.append("/");
        r.append(parts[i].as_str());
        i = i + 1;
    }
    proof {
        assert(parts.deep_view().subrange(from as int, n as int) == parts.deep_view().subrange(
            from as int,
            i as int,
        ));
    }
    r
}

// ---------------------------------------------------------------------------
// Trimming
// ---------------------------------------------------------------------------

/// `s` without leading whitespace.
pub open spec fn trim_left_spec(s: Seq<char>) -> Seq<char>
    decreases s.len(),
{
    if s.len() > 0 && is_space_char(s[0]) {
        trim_left_spec(s.subrange(1, s.len() as int))
    } else {
        s
    }
}

/// `s` without trailing whitespace.
pub open spec fn trim_right_spec(s: Seq<char>) -> Seq<char>
    decreases s.len(),
{
    if s.len() > 0 && is_space_char(s.last()) {
        trim_right_spec(s.drop_last())
    } else {
        s
    }
}

/// `s` without surrounding whitespace.
pub open spec fn trim_spec(s: Seq<char>) -> Seq<char> {
    trim_right_spec(trim_left_spec(s))
}

proof fn lemma_trim_left_range(s: Seq<char>, b: int)
    requires
        0 <= b <= s.len(),
        forall|j: int| 0 <= j < b ==> is_space_char(s[j]),
        b == s.len() || !is_space_char(s[b]),
    ensures
        trim_left_spec(s) == s.subrange(b, s.len() as int),
    decreases b,
{
    if b == 0 {
        if s.len() == 0 || !is_space_char(s[0]) {
            assert(trim_left_spec(s) =~= s.subrange(0, s.len() as int));
        }
    } else {
        let t = s.subrange(1, s.len() as int);
        lemma_trim_left_range(t, b - 1);
        assert(t.subrange(b - 1, t.len() as int) =~= s.subrange(b, s.len() as int));
    }
}

proof fn lemma_trim_right_range(s: Seq<char>, e: int)
    requires
        0 <= e <= s.len(),
        forall|j: int| e <= j < s.len() ==> is_space_char(s[j]),
        e == 0 || !is_space_char(s[e - 1]),
    ensures
        trim_right_spec(s) == s.subrange(0, e),
    decreases s.len(),
{
    if e == s.len() {
        if s.len() == 0 || !is_space_char(s.last()) {
            assert(trim_right_spec(s) =~= s.subrange(0, e));
        } else {
            assert(false);
        }
    } else {
        let t = s.drop_last();
        lemma_trim_right_range(t, e);
        assert(t.subrange(0, e) =~= s.subrange(0, e));
    }
}

/// Strips surrounding whitespace.
pub fn trim_str(s: &str) -> (r: String)
    ensures
        r@ == trim_spec(s@),
{
    let n = s.unicode_len();
    let mut b: usize = 0;
    while b < n && is_space(s.get_char(b))
        invariant
            n == s@.len(),
            b <= n,
            forall|j: int| 0 <= j < b ==> is_space_char(s@[j]),
        decreases n - b,
    {
        b = b + 1;
    }
    let mut e: usize = n;
    while e > b && is_space(s.get_char(e - 1))
        invariant
            n == s@.len(),
            b <= e <= n,
            forall|j: int| e <= j < n ==> is_space_char(s@[j]),
        decreases e,
    {
        e = e - 1;
    }
    proof {
        lemma_trim_left_range(s@, b as int);
        let t = s@.subrange(b as int, n as int);
        if e == b {
            lemma_trim_right_range(t, 0);
        } else {
            lemma_trim_right_range(t, e - b);
        }
        assert(t.subrange(0, e - b) =~= s@.subrange(b as int, e as int));
    }
    s.substring_char(b, e).to_owned()
}

/// Strips trailing whitespace.
pub fn trim_right_str(s: &str) -> (r: String)
    ensures
        r@ == trim_right_spec(s@),
{
    let n = s.unicode_len();
    let mut e: usize = n;
    while e > 0 && is_space(s.get_char(e - 1))
        invariant
            n == s@.len(),
            e <= n,
            forall|j: int| e <= j < n ==> is_space_char(s@[j]),
        decreases e,
    {
        e = e - 1;
    }
    proof {
        lemma_trim_right_range(s@, e as int);
    }
    s.substring_char(0, e).to_owned()
}

/// Whether `s` is nothing but whitespace.
pub fn is_blank(s: &str) -> (r: bool)
    ensures
        r == (trim_right_spec(s@).len() == 0),
{
    let n = s.unicode_len();
    let mut i: usize = 0;
    while i < n
        invariant
            n == s@.len(),
            i <= n,
            forall|j: int| 0 <= j < i ==> is_space_char(s@[j]),
        decreases n - i,
    {
        if !is_space(s.get_char(i)) {
            proof {
                lemma_trim_right_all_space(s@);
            }
            return false;
        }
        i = i + 1;
    }
    proof {
        lemma_trim_right_all_space(s@);
    }
    true
}

proof fn lemma_trim_right_all_space(s: Seq<char>)
    ensures
        (trim_right_spec(s).len() == 0) <==> (forall|j: int| 0 <= j < s.len() ==> is_space_char(
            s[j],
        )),
    decreases s.len(),
{
    if s.len() > 0 {
        if is_space_char(s.last()) {
            lemma_trim_right_all_space(s.drop_last());
            if trim_right_spec(s).len() == 0 {
                assert forall|j: int| 0 <= j < s.len() implies is_space_char(s[j]) by {
                    if j < s.len() - 1 {
                        assert(s.drop_last()[j] == s[j]);
                    }
                }
            } else {
                let j = choose|j: int|
                    0 <= j < s.drop_last().len() && !is_space_char(s.drop_last()[j]);
                assert(s[j] == s.drop_last()[j]);
            }
        } else {
            assert(!is_space_char(s[s.len() - 1]));
        }
    }
}

/// `s` without one trailing carriage return, the line form handed over by
/// line-based reading.
pub open spec fn strip_cr_spec(s: Seq<char>) -> Seq<char> {
    if s.len() > 0 && s.last() == '\r' {
        s.drop_last()
    } else {
        s
    }
}

/// Strips one trailing carriage return if present.
pub fn strip_cr(s: &str) -> (r: String)
    ensures
        r@ == strip_cr_spec(s@),
{
    let n = s.unicode_len();
    if n > 0 && s.get_char(n - 1) == '\r' {
        proof {
            assert(s@.subrange(0, n as int - 1) =~= s@.drop_last());
        }
        s.substring_char(0, n - 1).to_owned()
    } else {
        s.to_owned()
    }
}

// ---------------------------------------------------------------------------
// First occurrence
// ---------------------------------------------------------------------------

/// The index of the first occurrence of `c` in `s`, or -1 if there is none.
pub open spec fn first_index_of(s: Seq<char>, c: char) -> int
    decreases s.len(),
{
    if s.len() == 0 {
        -1
    } else if s[0] == c {
        0
    } else {
        let r = first_index_of(s.subrange(1, s.len() as int), c);
        if r < 0 {
            -1
        } else {
            r + 1
        }
    }
}

pub proof fn lemma_first_index_of_props(s: Seq<char>, c: char)
    ensures
        first_index_of(s, c) == -1 ==> forall|j: int| 0 <= j < s.len() ==> s[j] != c,
        first_index_of(s, c) >= 0 ==> {
            let r = first_index_of(s, c);
            &&& r < s.len()
            &&& s[r] == c
            &&& forall|j: int| 0 <= j < r ==> s[j] != c
        },
    decreases s.len(),
{
    if s.len() > 0 && s[0] != c {
        let t = s.subrange(1, s.len() as int);
        lemma_first_index_of_props(t, c);
        let rt = first_index_of(t, c);
        if rt < 0 {
            assert forall|j: int| 0 <= j < s.len() implies s[j] != c by {
                if j > 0 {
                    assert(t[j - 1] == s[j]);
                }
            }
        } else {
            assert(t[rt] == s[rt + 1]);
            assert forall|j: int| 0 <= j < rt + 1 implies s[j] != c by {
                if j > 0 {
                    assert(t[j - 1] == s[j]);
                }
            }
        }
    }
}

/// The first position of `c` in `s`, if any.
pub fn find_char(s: &str, c: char) -> (r: Option<usize>)
    ensures
        match r {
            Some(i) => i < s@.len() && first_index_of(s@, c) == i as int,
            None => first_index_of(s@, c) == -1,
        },
{
    let n = s.unicode_len();
    let mut i: usize = 0;
    proof {
        lemma_first_index_of_props(s@, c);
    }
    while i < n
        invariant
            n == s@.len(),
            i <= n,
            forall|j: int| 0 <= j < i ==> s@[j] != c,
            first_index_of(s@, c) == -1 ==> forall|j: int| 0 <= j < s@.len() ==> s@[j] != c,
            first_index_of(s@, c) >= 0 ==> {
                let r = first_index_of(s@, c);
                &&& r < s@.len()
                &&& s@[r] == c
                &&& forall|j: int| 0 <= j < r ==> s@[j] != c
            },
        decreases n - i,
    {
        if s.get_char(i) == c {
            proof {
                let r = first_index_of(s@, c);
                if r < 0 {
                    assert(s@[i as int] != c);
                    assert(false);
                }
                if r < i as int {
                    assert(s@[r] != c);
                    assert(false);
                }
                if r > i as int {
                    assert(s@[i as int] != c);
                    assert(false);
                }
            }
            return Some(i);
        }
        i = i + 1;
    }
    proof {
        if first_index_of(s@, c) >= 0 {
            let r = first_index_of(s@, c);
            assert(s@[r] != c);
            assert(false);
        }
    }
    None
}

// ---------------------------------------------------------------------------
// Decimal rendering
// ---------------------------------------------------------------------------

/// The decimal digit for `d`, which must be below ten.
pub open spec fn digit_char(d: int) -> char {
    if d == 0 {
        '0'
    } else if d == 1 {
        '1'
    } else if d == 2 {
        '2'
    } else if d == 3 {
        '3'
    } else if d == 4 {
        '4'
    } else if d == 5 {
        '5'
    } else if d == 6 {
        '6'
    } else if d == 7 {
        '7'
    } else if d == 8 {
        '8'
    } else {
        '9'
    }
}

/// The decimal rendering of `n`, without leading zeros (except for zero
/// itself).
pub open spec fn dec_chars(n: int) -> Seq<char>
    recommends
        n >= 0,
    decreases n,
{
    if n < 10 {
        seq![digit_char(n)]
    } else {
        dec_chars(n / 10) + seq![digit_char(n % 10)]
    }
}

fn digit_str(d: usize) -> (r: &'static str)
    requires
        d < 10,
    ensures
        r@ == seq![digit_char(d as int)],
{
    proof {
        reveal_strlit("0");
        reveal_strlit("1");
        reveal_strlit("2");
        reveal_strlit("3");
        reveal_strlit("4");
        reveal_strlit("5");
        reveal_strlit("6");
        reveal_strlit("7");
        reveal_strlit("8");
        reveal_strlit("9");
        assert("0"@ =~= seq!['0']);
        assert("1"@ =~= seq!['1']);
        assert("2"@ =~= seq!['2']);
        assert("3"@ =~= seq!['3']);
        assert("4"@ =~= seq!['4']);
        assert("5"@ =~= seq!['5']);
        assert("6"@ =~= seq!['6']);
        assert("7"@ =~= seq!['7']);
        assert("8"@ =~= seq!['8']);
        assert("9"@ =~= seq!['9']);
    }
    if d == 0 {
        "0"
    } else if d == 1 {
        "1"
    } else if d == 2 {
        "2"
    } else if d == 3 {
        "3"
    } else if d == 4 {
        "4"
    } else if d == 5 {
        "5"
    } else if d == 6 {
        "6"
    } else if d == 7 {
        "7"
    } else if d == 8 {
        "8"
    } else {
        "9"
    }
}

/// Renders `n` in decimal.
pub fn usize_to_string(n: usize) -> (r: String)
    ensures
        r@ == dec_chars(n as int),
    decreases n,
{
    if n < 10 {
        digit_str(n).to_owned()
    } else {
        let q = n / 10;
        let d = n % 10;
        let r = usize_to_string(q);
        r.concat(digit_str(d))
    }
}

} // verus!
