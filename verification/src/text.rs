//! Character-level string operations, stated over `Seq<char>`.

use vstd::prelude::*;

verus! {

/// Index of the first occurrence of `c` in `s`, or `s.len()` when there is none.
pub open spec fn first_index_of(s: Seq<char>, c: char) -> nat
    decreases s.len(),
{
    if s.len() == 0 {
        0
    } else if s[0] == c {
        0
    } else {
        1 + first_index_of(s.drop_first(), c)
    }
}

/// `first_index_of` is the least index holding `c`, or the length.
pub proof fn lemma_first_index_of(s: Seq<char>, c: char)
    ensures
        first_index_of(s, c) <= s.len(),
        forall|j: int| 0 <= j < first_index_of(s, c) ==> s[j] != c,
        first_index_of(s, c) < s.len() ==> s[first_index_of(s, c) as int] == c,
    decreases s.len(),
{
    if s.len() > 0 && s[0] != c {
        lemma_first_index_of(s.drop_first(), c);
        assert forall|j: int| 0 <= j < first_index_of(s, c) implies s[j] != c by {
            if j > 0 {
                assert(s[j] == s.drop_first()[j - 1]);
            }
        }
    }
}

/// Any index with the two properties is `first_index_of`.
pub proof fn lemma_first_index_of_unique(s: Seq<char>, c: char, i: int)
    requires
        0 <= i <= s.len(),
        forall|j: int| 0 <= j < i ==> s[j] != c,
        i < s.len() ==> s[i] == c,
    ensures
        first_index_of(s, c) == i,
{
    lemma_first_index_of(s, c);
    let k = first_index_of(s, c) as int;
    if k < i {
        assert(s[k] == c);
    } else if i < k {
        assert(s[i] != c);
    }
}

/// The pieces of `s` between occurrences of `c`, as `str::split` gives them:
/// `n` separators give `n + 1` pieces.
pub open spec fn split_on(s: Seq<char>, c: char) -> Seq<Seq<char>>
    decreases s.len(),
{
    let i = first_index_of(s, c);
    if i >= s.len() {
        seq![s]
    } else {
        seq![s.take(i as int)] + split_on(s.skip(i + 1 as int), c)
    }
}

/// The pieces joined with `c` between neighbours.
pub open spec fn join_with(pieces: Seq<Seq<char>>, c: char) -> Seq<char>
    decreases pieces.len(),
{
    if pieces.len() == 0 {
        Seq::empty()
    } else if pieces.len() == 1 {
        pieces[0]
    } else {
        join_with(pieces.drop_last(), c).push(c) + pieces.last()
    }
}

/// `t` occurs in `s` as a contiguous run of characters.
pub open spec fn contains_seq(s: Seq<char>, t: Seq<char>) -> bool {
    exists|i: int| 0 <= i && i + t.len() <= s.len() && #[trigger] s.subrange(i, i + t.len()) == t
}

/// The characters of `t` stand side by side in `s`, the first at position `i`.
pub open spec fn stands_at(s: Seq<char>, t: Seq<char>, i: int) -> bool {
    0 <= i && i + t.len() <= s.len() && forall|k: int| 0 <= k < t.len() ==> #[trigger] s[i + k] == t[k]
}

/// `t` occurs in `s` exactly when its characters stand side by side somewhere in `s`.
pub proof fn lemma_contains_seq_contiguous(s: Seq<char>, t: Seq<char>)
    ensures
        contains_seq(s, t) <==> exists|i: int| #[trigger] stands_at(s, t, i),
{
    if contains_seq(s, t) {
        let i = choose|i: int|
            0 <= i && i + t.len() <= s.len() && #[trigger] s.subrange(i, i + t.len()) == t;
        assert forall|k: int| 0 <= k < t.len() implies #[trigger] s[i + k] == t[k] by {
            assert(s.subrange(i, i + t.len())[k] == s[i + k]);
        }
        assert(stands_at(s, t, i));
    }
    if exists|i: int| #[trigger] stands_at(s, t, i) {
        let i = choose|i: int| #[trigger] stands_at(s, t, i);
        assert forall|k: int| 0 <= k < t.len() implies s.subrange(i, i + t.len())[k] == t[k] by {
            assert(s[i + k] == t[k]);
        }
        assert(s.subrange(i, i + t.len()) =~= t);
    }
}

/// Whatever stands around `t`, `t` occurs in it.
pub proof fn lemma_contains_seq_inside(a: Seq<char>, t: Seq<char>, b: Seq<char>)
    ensures
        contains_seq(a + t + b, t),
{
    let s = a + t + b;
    assert(s.subrange(a.len() as int, a.len() + t.len() as int) =~= t);
}

/// `c` does not occur in `s`.
pub open spec fn free_of(s: Seq<char>, c: char) -> bool {
    forall|j: int| 0 <= j < s.len() ==> s[j] != c
}

/// Splitting a piece that holds no separator leaves it whole.
pub proof fn lemma_split_free(s: Seq<char>, c: char)
    requires
        free_of(s, c),
    ensures
        split_on(s, c) == seq![s],
{
    lemma_first_index_of_unique(s, c, s.len() as int);
}

/// Splitting `a + c + b`, where `a` holds no separator, peels `a` off.
pub proof fn lemma_split_cons(a: Seq<char>, c: char, b: Seq<char>)
    requires
        free_of(a, c),
    ensures
        split_on(a.push(c) + b, c) == seq![a] + split_on(b, c),
{
    let s = a.push(c) + b;
    assert forall|j: int| 0 <= j < a.len() implies s[j] != c by {
        assert(s[j] == a[j]);
    }
    assert(s[a.len() as int] == c);
    lemma_first_index_of_unique(s, c, a.len() as int);
    assert(s.take(a.len() as int) =~= a);
    assert(s.skip(a.len() + 1 as int) =~= b);
}

/// Joining with the first piece in front.
pub proof fn lemma_join_front(pieces: Seq<Seq<char>>, c: char)
    requires
        pieces.len() >= 2,
    ensures
        join_with(pieces, c) == pieces[0].push(c) + join_with(pieces.drop_first(), c),
    decreases pieces.len(),
{
    if pieces.len() == 2 {
        assert(pieces.drop_last() =~= seq![pieces[0]]);
        assert(pieces.drop_first() =~= seq![pieces[1]]);
        assert(join_with(pieces.drop_last(), c) == pieces[0]);
        assert(join_with(pieces.drop_first(), c) == pieces[1]);
        assert(join_with(pieces, c) == join_with(pieces.drop_last(), c).push(c) + pieces.last());
    } else {
        lemma_join_front(pieces.drop_last(), c);
        assert(pieces.drop_last().drop_first() =~= pieces.drop_first().drop_last());
        assert(pieces.drop_first().last() == pieces.last());
        assert(join_with(pieces.drop_first(), c) == join_with(pieces.drop_first().drop_last(), c).push(
            c,
        ) + pieces.last());
        assert(join_with(pieces, c) =~= pieces[0].push(c) + join_with(pieces.drop_first(), c));
    }
}

/// Splitting what was joined gives the pieces back, when no piece holds the separator.
pub proof fn lemma_split_join(pieces: Seq<Seq<char>>, c: char)
    requires
        pieces.len() >= 1,
        forall|k: int| 0 <= k < pieces.len() ==> free_of(#[trigger] pieces[k], c),
    ensures
        split_on(join_with(pieces, c), c) == pieces,
    decreases pieces.len(),
{
    if pieces.len() == 1 {
        assert(free_of(pieces[0], c));
        lemma_split_free(pieces[0], c);
        assert(pieces =~= seq![pieces[0]]);
    } else {
        lemma_join_front(pieces, c);
        let rest = pieces.drop_first();
        assert forall|k: int| 0 <= k < rest.len() implies free_of(#[trigger] rest[k], c) by {
            assert(rest[k] == pieces[k + 1]);
        }
        lemma_split_join(rest, c);
        assert(free_of(pieces[0], c));
        lemma_split_cons(pieces[0], c, join_with(rest, c));
        assert(pieces =~= seq![pieces[0]] + rest);
    }
}

/// Position of the first `c` at or after `from`, or the length.
pub fn find_from(v: &Vec<char>, from: usize, c: char) -> (k: usize)
    requires
        from <= v@.len(),
    ensures
        k == from + first_index_of(v@.skip(from as int), c),
        from <= k <= v@.len(),
{
    let mut k = from;
    while k < v.len() && v[k] != c
        invariant
            from <= k <= v@.len(),
            forall|j: int| from <= j < k ==> v@[j] != c,
        decreases v@.len() - k,
    {
        k = k + 1;
    }
    proof {
        let t = v@.skip(from as int);
        assert forall|j: int| 0 <= j < k - from implies t[j] != c by {
            assert(t[j] == v@[from + j]);
        }
        if k < v@.len() {
            assert(t[k - from] == v@[k as int]);
        }
        lemma_first_index_of_unique(t, c, k - from);
    }
    k
}

/// The characters `from..to` of `s` as a new string.
pub fn substring(s: &str, from: usize, to: usize) -> (r: String)
    requires
        from <= to <= s@.len(),
    ensures
        r@ == s@.subrange(from as int, to as int),
{
    s.substring_char(from, to).to_owned()
}

/// Character ranges of the pieces of `s` between occurrences of `c`,
/// piece for piece as `split_on` gives them.
pub fn split_ranges(s: &str, c: char) -> (r: Vec<(usize, usize)>)
    ensures
        r@.len() == split_on(s@, c).len(),
        forall|k: int| 0 <= k < r@.len() ==> #[trigger] r@[k].0 <= r@[k].1 <= s@.len(),
        forall|k: int|
            0 <= k < r@.len() ==> s@.subrange(r@[k].0 as int, r@[k].1 as int) == #[trigger] split_on(
                s@,
                c,
            )[k],
{
    let v = chars_of(s);
    let n = v.len();
    let mut r: Vec<(usize, usize)> = Vec::new();
    let mut start: usize = 0;
    let ghost mut done: Seq<Seq<char>> = Seq::empty();
    assert(s@.skip(0) =~= s@);
    assert(done + split_on(s@.skip(0), c) =~= split_on(s@, c));
    loop
        invariant
            v@ == s@,
            n == s@.len(),
            start <= n,
            r@.len() == done.len(),
            forall|k: int| 0 <= k < r@.len() ==> #[trigger] r@[k].0 <= r@[k].1 <= s@.len(),
            forall|k: int|
                0 <= k < r@.len() ==> s@.subrange(r@[k].0 as int, r@[k].1 as int) == #[trigger] done[k],
            split_on(s@, c) == done + split_on(s@.skip(start as int), c),
        decreases n - start,
    {
        let k = find_from(&v, start, c);
        let ghost rest = s@.skip(start as int);
        if k == n {
            let ghost old_r = r@;
            r.push((start, n));
            proof {
                assert(split_on(rest, c) == seq![rest]);
                assert(s@.subrange(start as int, n as int) =~= rest);
                let old_done = done;
                done = done.push(rest);
                assert(split_on(s@, c) =~= done);
                assert forall|j: int| 0 <= j < r@.len() implies r@[j].0 <= r@[j].1 <= s@.len()
                    && s@.subrange(r@[j].0 as int, r@[j].1 as int) == split_on(s@, c)[j] by {
                    if j < old_r.len() {
                        assert(r@[j] == old_r[j]);
                        assert(done[j] == old_done[j]);
                    }
                }
            }
            return r;
        }
        proof {
            let i = first_index_of(rest, c);
            assert(split_on(rest, c) == seq![rest.take(i as int)] + split_on(rest.skip(i + 1 as int), c));
            assert(rest.skip(i + 1 as int) =~= s@.skip(k + 1 as int));
            assert(s@.subrange(start as int, k as int) =~= rest.take(i as int));
        }
        let ghost old_r = r@;
        r.push((start, k));
        proof {
            let i = first_index_of(rest, c);
            let old_done = done;
            done = done.push(rest.take(i as int));
            assert(split_on(s@, c) =~= done + split_on(s@.skip(k + 1 as int), c));
            assert forall|j: int| 0 <= j < r@.len() implies r@[j].0 <= r@[j].1 <= s@.len()
                && s@.subrange(r@[j].0 as int, r@[j].1 as int) == done[j] by {
                if j < old_r.len() {
                    assert(r@[j] == old_r[j]);
                    assert(done[j] == old_done[j]);
                }
            }
        }
        start = k + 1;
    }
}

/// The characters of `s`, in order.
pub fn chars_of(s: &str) -> (v: Vec<char>)
    ensures
        v@ == s@,
{
    let n = s.unicode_len();
    let mut v: Vec<char> = Vec::new();
    let mut i: usize = 0;
    while i < n
        invariant
            n == s@.len(),
            i <= n,
            v@ == s@.take(i as int),
        decreases n - i,
    {
        let c = s.get_char(i);
        v.push(c);
        i = i + 1;
        assert(v@ =~= s@.take(i as int));
    }
    assert(v@ =~= s@);
    v
}

/// The character of a decimal digit.
pub open spec fn digit_char(d: nat) -> char {
    seq!['0', '1', '2', '3', '4', '5', '6', '7', '8', '9'][d as int]
}

/// The decimal notation of `n`, without leading zeros.
pub open spec fn decimal(n: nat) -> Seq<char>
    decreases n,
{
    if n < 10 {
        seq![digit_char(n)]
    } else {
        decimal(n / 10).push(digit_char(n % 10))
    }
}

/// `n` copies of `c`.
pub open spec fn repeat_char(c: char, n: nat) -> Seq<char> {
    Seq::new(n, |i: int| c)
}

/// `s` with spaces in front, up to `width` characters (`{:>width}`).
pub open spec fn pad_left(s: Seq<char>, width: nat) -> Seq<char> {
    if s.len() < width {
        repeat_char(' ', (width - s.len()) as nat) + s
    } else {
        s
    }
}

/// The string of one decimal digit.
fn digit_str(d: usize) -> (r: &'static str)
    requires
        d < 10,
    ensures
        r@ == seq![digit_char(d as nat)],
{
    proof {
        reveal_strlit("0");
        reveal_strlit("1");
        reveal_strlit("2");
        reveal_strlit("3");
        reveal_strlit("4");
        reveal_strlit("5");
        reveal_strlit("6");
        reveal_strlit("7");
        reveal_strlit("8");
        reveal_strlit("9");
    }
    if d == 0 {
        "0"
    } else if d == 1 {
        "1"
    } else if d == 2 {
        "2"
    } else if d == 3 {
        "3"
    } else if d == 4 {
        "4"
    } else if d == 5 {
        "5"
    } else if d == 6 {
        "6"
    } else if d == 7 {
        "7"
    } else if d == 8 {
        "8"
    } else {
        "9"
    }
}

/// Appends the decimal notation of `n`.
pub fn push_decimal(out: &mut String, n: usize)
    ensures
        final(out)@ == old(out)@ + decimal(n as nat),
    decreases n,
{
    if n < 10 {
        out.append(digit_str(n));
    } else {
        push_decimal(out, n / 10);
        out.append(digit_str(n % 10));
        proof {
            assert(decimal(n as nat) == decimal((n / 10) as nat).push(digit_char((n % 10) as nat)));
        }
    }
}

/// Appends `n` copies of the one-character string `c`.
pub fn push_repeated(out: &mut String, c: &str, n: usize)
    requires
        c@.len() == 1,
    ensures
        final(out)@ == old(out)@ + repeat_char(c@[0], n as nat),
{
    let ghost start = out@;
    let mut i: usize = 0;
    while i < n
        invariant
            c@.len() == 1,
            i <= n,
            out@ == start + repeat_char(c@[0], i as nat),
        decreases n - i,
    {
        out.append(c);
        i = i + 1;
        proof {
            assert(out@ =~= start + repeat_char(c@[0], i as nat));
        }
    }
}

/// Appends the decimal notation of `n`, right-aligned in `width` characters.
pub fn push_decimal_padded(out: &mut String, n: usize, width: usize)
    ensures
        final(out)@ == old(out)@ + pad_left(decimal(n as nat), width as nat),
{
    let mut digits = String::new();
    push_decimal(&mut digits, n);
    assert(digits@ =~= decimal(n as nat));
    let len = digits.as_str().unicode_len();
    if len < width {
        let space = " ";
        proof {
            reveal_strlit(" ");
        }
        push_repeated(out, space, width - len);
    }
    let ghost mid = out@;
    out.append(digits.as_str());
    proof {
        if len < width {
            assert(out@ =~= old(out)@ + pad_left(decimal(n as nat), width as nat));
        } else {
            assert(out@ =~= old(out)@ + pad_left(decimal(n as nat), width as nat));
        }
    }
}

/// Whether two strings hold the same characters.
pub fn str_equal(s: &str, t: &str) -> (b: bool)
    ensures
        b == (s@ == t@),
{
    let sv = chars_of(s);
    let tv = chars_of(t);
    if sv.len() != tv.len() {
        return false;
    }
    let mut i: usize = 0;
    while i < sv.len()
        invariant
            sv@ == s@,
            tv@ == t@,
            sv@.len() == tv@.len(),
            i <= sv@.len(),
            forall|j: int| 0 <= j < i ==> sv@[j] == tv@[j],
        decreases sv@.len() - i,
    {
        if sv[i] != tv[i] {
            return false;
        }
        i = i + 1;
    }
    assert(s@ =~= t@);
    true
}

/// Indices below `n` that satisfy `p`, in increasing order.
pub open spec fn indices_where(n: nat, p: spec_fn(int) -> bool) -> Seq<usize>
    decreases n,
{
    if n == 0 {
        Seq::empty()
    } else if p(n - 1) {
        indices_where((n - 1) as nat, p).push((n - 1) as usize)
    } else {
        indices_where((n - 1) as nat, p)
    }
}

/// Whether `t` occurs in `s` (`str::contains` with a string pattern).
pub fn str_contains(s: &str, t: &str) -> (b: bool)
    ensures
        b == contains_seq(s@, t@),
{
    let sv = chars_of(s);
    let tv = chars_of(t);
    let n = sv.len();
    let m = tv.len();
    if m > n {
        assert(!contains_seq(s@, t@));
        return false;
    }
    let mut i: usize = 0;
    while i <= n - m
        invariant
            sv@ == s@,
            tv@ == t@,
            n == sv@.len(),
            m == tv@.len(),
            m <= n,
            i <= n - m + 1,
            forall|k: int| 0 <= k < i ==> #[trigger] s@.subrange(k, k + m) != t@,
        decreases n - m + 1 - i,
    {
        let mut j: usize = 0;
        let mut same = true;
        while j < m
            invariant
                sv@ == s@,
                tv@ == t@,
                n == sv@.len(),
                m == tv@.len(),
                i + m <= n,
                j <= m,
                same == (forall|l: int| 0 <= l < j ==> sv@[i + l] == tv@[l]),
            decreases m - j,
        {
            if sv[i + j] != tv[j] {
                same = false;
            }
            j = j + 1;
        }
        if same {
            assert(s@.subrange(i as int, i + m) =~= t@);
            return true;
        }
        assert(s@.subrange(i as int, i + m) != t@) by {
            let l = choose|l: int| 0 <= l < m && sv@[i + l] != tv@[l];
            assert(s@.subrange(i as int, i + m)[l] == sv@[i + l]);
        }
        i = i + 1;
    }
    assert forall|k: int| 0 <= k && k + t@.len() <= s@.len() implies #[trigger] s@.subrange(
        k,
        k + t@.len(),
    ) != t@ by {
        assert(k < i);
    }
    false
}

} // verus!
