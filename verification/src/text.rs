use vstd::prelude::*;
use vstd::string::StrSliceExecFns;
use vstd::string::StringExecFns;

verus! {

broadcast use vstd::string::group_string_axioms;

/// The decimal digit character for `d` in `0..10`.
pub open spec fn digit_char(d: nat) -> char {
    seq!['0', '1', '2', '3', '4', '5', '6', '7', '8', '9'][d as int]
}

/// The decimal representation of `n`, without leading zeros.
pub open spec fn decimal(n: nat) -> Seq<char>
    decreases n,
{
    if n < 10 {
        seq![digit_char(n)]
    } else {
        decimal(n / 10).push(digit_char(n % 10))
    }
}

/// `pattern` occurs as a contiguous run of characters in `text`.
pub open spec fn occurs_in(text: Seq<char>, pattern: Seq<char>) -> bool {
    exists|i: int|
        0 <= i && i + pattern.len() <= text.len() && #[trigger] text.subrange(i, i + pattern.len())
            == pattern
}

/// `filter[a..b]` is one of the pieces that splitting `filter` at every `sep`
/// yields.
pub open spec fn is_piece(filter: Seq<char>, sep: char, a: int, b: int) -> bool {
    &&& 0 <= a <= b <= filter.len()
    &&& (a == 0 || filter[a - 1] == sep)
    &&& (b == filter.len() || filter[b] == sep)
    &&& forall|j: int| a <= j < b ==> #[trigger] filter[j] != sep
}

/// Some piece of `filter`, split at commas, occurs in `name`.
pub open spec fn filter_selects(filter: Seq<char>, name: Seq<char>) -> bool {
    exists|a: int, b: int|
        #[trigger] is_piece(filter, ',', a, b) && occurs_in(name, filter.subrange(a, b))
}

/// `text` holds the characters of `pattern`, one by one, from position `i`.
pub open spec fn agrees_at(text: Seq<char>, pattern: Seq<char>, i: int) -> bool {
    &&& 0 <= i
    &&& i + pattern.len() <= text.len()
    &&& forall|j: int| 0 <= j < pattern.len() ==> #[trigger] text[i + j] == pattern[j]
}

/// `pattern` occurs in `text` exactly when some position of `text` starts a
/// run of characters equal, one by one, to those of `pattern`; in particular
/// every text occurs in itself and the empty pattern occurs everywhere.
pub proof fn lemma_occurs_in_by_position(text: Seq<char>, pattern: Seq<char>)
    ensures
        occurs_in(text, pattern) <==> exists|i: int| #[trigger] agrees_at(text, pattern, i),
        occurs_in(text, text),
        occurs_in(text, Seq::<char>::empty()),
{
    if occurs_in(text, pattern) {
        let i = choose|i: int|
            0 <= i && i + pattern.len() <= text.len() && #[trigger] text.subrange(i, i + pattern.len())
                == pattern;
        assert forall|j: int| 0 <= j < pattern.len() implies #[trigger] text[i + j] == pattern[j] by {
            assert(text.subrange(i, i + pattern.len())[j] == text[i + j]);
        }
        assert(agrees_at(text, pattern, i));
    }
    if exists|i: int| #[trigger] agrees_at(text, pattern, i) {
        let i = choose|i: int| #[trigger] agrees_at(text, pattern, i);
        assert forall|k: int| 0 <= k < pattern.len() implies #[trigger] text.subrange(i, i + pattern.len())[k]
            == pattern[k] by {
            assert(text[i + k] == pattern[k]);
        }
        assert(text.subrange(i, i + pattern.len()) =~= pattern);
    }
    assert(text.subrange(0int, 0int + text.len()) =~= text);
    let e = Seq::<char>::empty();
    assert(text.subrange(0int, 0int + e.len()) =~= e);
}

/// A filter that is a whole name selects that name: a name without commas is
/// its own only piece, and otherwise the piece before the first comma is a
/// prefix of the name.
pub proof fn lemma_name_selects_itself(name: Seq<char>)
    ensures
        filter_selects(name, name),
{
    let b = first_sep_from(name, 0);
    assert(is_piece(name, ',', 0, b));
    let piece = name.subrange(0, b);
    assert(name.subrange(0int, 0int + piece.len()) =~= piece);
    assert(occurs_in(name, piece));
}

proof fn first_sep_from(s: Seq<char>, k: int) -> (b: int)
    requires
        0 <= k <= s.len(),
        forall|j: int| 0 <= j < k ==> #[trigger] s[j] != ',',
    ensures
        k <= b <= s.len(),
        b == s.len() || s[b] == ',',
        forall|j: int| 0 <= j < b ==> #[trigger] s[j] != ',',
    decreases s.len() - k,
{
    if k == s.len() || s[k] == ',' {
        k
    } else {
        first_sep_from(s, k + 1)
    }
}

/// A filter selects a name exactly when some comma-free piece of the filter,
/// bounded by commas or the filter's ends, appears character by character at
/// some position of the name.
pub proof fn lemma_filter_selects_by_position(filter: Seq<char>, name: Seq<char>)
    ensures
        filter_selects(filter, name) <==> exists|a: int, b: int, i: int|
            #[trigger] is_piece(filter, ',', a, b) && 0 <= i && i + (b - a) <= name.len() && #[trigger] name.subrange(i, i + (b - a)) == filter.subrange(a, b),
{
    if filter_selects(filter, name) {
        let (a, b) = choose|a: int, b: int|
            #[trigger] is_piece(filter, ',', a, b) && occurs_in(name, filter.subrange(a, b));
        let p = filter.subrange(a, b);
        let i = choose|i: int| 0 <= i && i + p.len() <= name.len() && #[trigger] name.subrange(i, i + p.len()) == p;
        assert(is_piece(filter, ',', a, b) && 0 <= i && i + (b - a) <= name.len() && name.subrange(i, i + (b - a)) == filter.subrange(a, b));
    }
    if exists|a: int, b: int, i: int|
        #[trigger] is_piece(filter, ',', a, b) && 0 <= i && i + (b - a) <= name.len() && #[trigger] name.subrange(i, i + (b - a)) == filter.subrange(a, b) {
        let (a, b, i) = choose|a: int, b: int, i: int|
            #[trigger] is_piece(filter, ',', a, b) && 0 <= i && i + (b - a) <= name.len() && #[trigger] name.subrange(i, i + (b - a)) == filter.subrange(a, b);
        let p = filter.subrange(a, b);
        assert(name.subrange(i, i + p.len()) == p);
        assert(occurs_in(name, p));
    }
}

/// The number that a string of decimal digits denotes.
pub open spec fn digits_value(s: Seq<char>) -> int
    decreases s.len(),
{
    if s.len() == 0 {
        0
    } else {
        digits_value(s.drop_last()) * 10 + (s.last() as int - '0' as int)
    }
}

/// The decimal representation of `n` consists of digits only, has no leading
/// zero, and reads back as `n`.
pub proof fn lemma_decimal_reads_back(n: nat)
    ensures
        decimal(n).len() >= 1,
        forall|j: int| 0 <= j < decimal(n).len() ==> '0' <= #[trigger] decimal(n)[j] <= '9',
        n >= 10 ==> decimal(n)[0] != '0',
        digits_value(decimal(n)) == n,
    decreases n,
{
    let d = decimal(n);
    if n < 10 {
        assert(d.drop_last() =~= Seq::<char>::empty());
        assert(d[0] == digit_char(n));
        assert(digit_char(n) as int - '0' as int == n) by {
            assert(seq!['0', '1', '2', '3', '4', '5', '6', '7', '8', '9'][n as int] as int == '0' as int + n);
        }
        assert(d.last() == d[0]);
        assert(digits_value(Seq::<char>::empty()) == 0);
        assert(digits_value(d) == digits_value(d.drop_last()) * 10 + (d.last() as int - '0' as int));
    } else {
        lemma_decimal_reads_back(n / 10);
        let h = decimal(n / 10);
        assert(d == h.push(digit_char(n % 10)));
        assert(d.drop_last() =~= h);
        assert(digit_char(n % 10) as int - '0' as int == n % 10) by {
            assert(seq!['0', '1', '2', '3', '4', '5', '6', '7', '8', '9'][(n % 10) as int] as int == '0' as int + n % 10);
        }
        assert(d.last() == digit_char(n % 10));
        assert(digits_value(d) == digits_value(h) * 10 + (n % 10));
        assert((n / 10) * 10 + n % 10 == n);
        assert forall|j: int| 0 <= j < d.len() implies '0' <= #[trigger] d[j] <= '9' by {
            if j < h.len() {
                assert(d[j] == h[j]);
            }
        }
        if n / 10 >= 10 {
            assert(d[0] == h[0]);
        } else {
            assert(d[0] == h[0]);
            assert(h[0] == digit_char(n / 10));
            assert(n / 10 >= 1);
        }
    }
}

/// An empty filter selects every name.
pub proof fn lemma_empty_filter_selects_all(name: Seq<char>)
    ensures
        filter_selects(Seq::<char>::empty(), name),
{
    let f = Seq::<char>::empty();
    assert(is_piece(f, ',', 0, 0));
    let piece = f.subrange(0, 0);
    assert(name.subrange(0int, 0int + piece.len()) =~= piece);
    assert(occurs_in(name, piece));
}

/// Joining two filters with a comma selects exactly the names that either
/// filter selects.
pub proof fn lemma_comma_joins_filters(left: Seq<char>, right: Seq<char>, name: Seq<char>)
    ensures
        filter_selects(left + seq![','] + right, name) == (filter_selects(left, name) || filter_selects(right, name)),
{
    let f = left + seq![','] + right;
    let n = left.len() as int;
    assert(f.len() == n + 1 + right.len());
    assert forall|j: int| 0 <= j < n implies #[trigger] f[j] == left[j] by {}
    assert forall|j: int| 0 <= j < right.len() implies #[trigger] f[n + 1 + j] == right[j] by {}
    assert(f[n] == ',');
    if filter_selects(f, name) {
        let (a, b) = choose|a: int, b: int| #[trigger] is_piece(f, ',', a, b) && occurs_in(name, f.subrange(a, b));
        if b <= n {
            if b < n {
                assert(f[b] == left[b]);
            }
            assert(is_piece(left, ',', a, b)) by {
                assert forall|j: int| a <= j < b implies #[trigger] left[j] != ',' by {
                    assert(f[j] == left[j]);
                }
                if a > 0 {
                    assert(f[a - 1] == left[a - 1]);
                }
            }
            assert(f.subrange(a, b) =~= left.subrange(a, b));
        } else {
            assert(a >= n + 1) by {
                if a <= n {
                    assert(f[n] != ',');
                }
            }
            let (a2, b2) = (a - n - 1, b - n - 1);
            assert(is_piece(right, ',', a2, b2)) by {
                assert forall|j: int| a2 <= j < b2 implies #[trigger] right[j] != ',' by {
                    assert(f[n + 1 + j] == right[j]);
                }
                if a2 > 0 {
                    assert(f[n + 1 + (a2 - 1)] == right[a2 - 1]);
                }
                if b2 < right.len() {
                    assert(f[n + 1 + b2] == right[b2]);
                }
            }
            assert(f.subrange(a, b) =~= right.subrange(a2, b2));
        }
    }
    if filter_selects(left, name) {
        let (a, b) = choose|a: int, b: int| #[trigger] is_piece(left, ',', a, b) && occurs_in(name, left.subrange(a, b));
        assert(is_piece(f, ',', a, b)) by {
            assert forall|j: int| a <= j < b implies #[trigger] f[j] != ',' by {
                assert(left[j] != ',');
            }
            if a > 0 {
                assert(f[a - 1] == left[a - 1]);
            }
            if b < n {
                assert(f[b] == left[b]);
            }
        }
        assert(f.subrange(a, b) =~= left.subrange(a, b));
    }
    if filter_selects(right, name) {
        let (a, b) = choose|a: int, b: int| #[trigger] is_piece(right, ',', a, b) && occurs_in(name, right.subrange(a, b));
        let (a2, b2) = (a + n + 1, b + n + 1);
        assert(is_piece(f, ',', a2, b2)) by {
            assert forall|j: int| a2 <= j < b2 implies #[trigger] f[j] != ',' by {
                assert(f[n + 1 + (j - n - 1)] == right[j - n - 1]);
            }
            if a > 0 {
                assert(f[n + 1 + (a - 1)] == right[a - 1]);
            }
            if b < right.len() {
                assert(f[n + 1 + b] == right[b]);
            }
        }
        assert(f.subrange(a2, b2) =~= right.subrange(a, b));
    }
}

fn digit_str(d: usize) -> (s: &'static str)
    requires
        d < 10,
    ensures
        s@ == seq![digit_char(d as nat)],
{
    let s = if d == 0 {
        "0"
    } else if d == 1 {
        "1"
    } else if d == 2 {
        "2"
    } else if d == 3 {
        "3"
    } else if d == 4 {
        "4"
    } else if d == 5 {
        "5"
    } else if d == 6 {
        "6"
    } else if d == 7 {
        "7"
    } else if d == 8 {
        "8"
    } else {
        "9"
    };
    proof {
        reveal_strlit("0");
        reveal_strlit("1");
        reveal_strlit("2");
        reveal_strlit("3");
        reveal_strlit("4");
        reveal_strlit("5");
        reveal_strlit("6");
        reveal_strlit("7");
        reveal_strlit("8");
        reveal_strlit("9");
    }
    assert(s@ =~= seq![digit_char(d as nat)]);
    s
}

/// Appends the decimal representation of `n` to `s`.
pub fn push_decimal(s: &mut String, n: usize)
    ensures
        final(s)@ == old(s)@ + decimal(n as nat),
    decreases n,
{
    if n >= 10 {
        push_decimal(s, n / 10);
    }
    s.append(digit_str(n % 10));
    assert(old(s)@ + decimal(n as nat) =~= final(s)@);
}

/// The characters of `s`, in order.
pub fn chars_of(s: &str) -> (chars: Vec<char>)
    ensures
        chars@ == s@,
{
    let n = s.unicode_len();
    let mut chars: Vec<char> = Vec::new();
    let mut i: usize = 0;
    while i < n
        invariant
            n == s@.len(),
            i <= n,
            chars@ == s@.subrange(0, i as int),
        decreases n - i,
    {
        chars.push(s.get_char(i));
        i = i + 1;
        assert(chars@ =~= s@.subrange(0, i as int));
    }
    assert(chars@ =~= s@);
    chars
}

/// Whether `a` and `b` hold the same characters.
pub fn same_text(a: &str, b: &str) -> (same: bool)
    ensures
        same == (a@ == b@),
{
    let x = chars_of(a);
    let y = chars_of(b);
    if x.len() != y.len() {
        return false;
    }
    let mut i: usize = 0;
    while i < x.len()
        invariant
            x@ == a@,
            y@ == b@,
            x@.len() == y@.len(),
            i <= x@.len(),
            forall|j: int| 0 <= j < i ==> x@[j] == y@[j],
        decreases x.len() - i,
    {
        if x[i] != y[i] {
            return false;
        }
        i = i + 1;
    }
    assert(x@ =~= y@);
    true
}

/// Whether `pattern[from..to]` equals `text[at..at + (to - from)]`.
fn matches_at(text: &Vec<char>, at: usize, pattern: &Vec<char>, from: usize, to: usize) -> (m: bool)
    requires
        from <= to <= pattern@.len(),
        at + (to - from) <= text@.len(),
    ensures
        m == (text@.subrange(at as int, at + (to - from)) == pattern@.subrange(from as int, to as int)),
{
    let text_len = text.len();
    let mut k: usize = 0;
    while k < to - from
        invariant
            from <= to <= pattern@.len(),
            text_len == text@.len(),
            at + (to - from) <= text@.len(),
            k <= to - from,
            forall|j: int|
                0 <= j < k ==> #[trigger] text@.subrange(at as int, at + (to - from))[j]
                    == pattern@.subrange(from as int, to as int)[j],
        decreases to - from - k,
    {
        if text[at + k] != pattern[from + k] {
            assert(text@.subrange(at as int, at + (to - from))[k as int] != pattern@.subrange(
                from as int,
                to as int,
            )[k as int]);
            return false;
        }
        k = k + 1;
    }
    assert(text@.subrange(at as int, at + (to - from)) =~= pattern@.subrange(from as int, to as int));
    true
}

/// Whether `pattern[from..to]` occurs in `text`.
fn occurs(text: &Vec<char>, pattern: &Vec<char>, from: usize, to: usize) -> (found: bool)
    requires
        from <= to <= pattern@.len(),
    ensures
        found == occurs_in(text@, pattern@.subrange(from as int, to as int)),
{
    let len = to - from;
    let ghost piece = pattern@.subrange(from as int, to as int);
    assert(piece.len() == len);
    if len > text.len() {
        return false;
    }
    let last = text.len() - len;
    let mut i: usize = 0;
    loop
        invariant
            from <= to <= pattern@.len(),
            piece == pattern@.subrange(from as int, to as int),
            piece.len() == len,
            last + len == text@.len(),
            i <= last,
            forall|j: int| 0 <= j < i ==> #[trigger] text@.subrange(j, j + len) != piece,
        decreases last - i,
    {
        if matches_at(text, i, pattern, from, to) {
            assert(text@.subrange(i as int, i + piece.len()) == piece);
            return true;
        }
        if i == last {
            assert forall|j: int|
                0 <= j && j + piece.len() <= text@.len() implies #[trigger] text@.subrange(
                j,
                j + piece.len(),
            ) != piece by {
                assert(j <= i);
            }
            return false;
        }
        i = i + 1;
    }
}

/// Whether some piece of `filter`, split at commas, occurs in `name`; an empty
/// filter has one empty piece and so selects every name.
pub fn filter_matches(filter: &str, name: &str) -> (selected: bool)
    ensures
        selected == filter_selects(filter@, name@),
        filter@ == name@ ==> selected,
{
    proof {
        lemma_name_selects_itself(name@);
    }
    let f = chars_of(filter);
    let t = chars_of(name);
    let n = f.len();
    let mut start: usize = 0;
    let mut i: usize = 0;
    loop
        invariant
            f@ == filter@,
            t@ == name@,
            filter_selects(name@, name@),
            n == f@.len(),
            start <= i <= n,
            start == 0 || f@[start - 1] == ',',
            forall|j: int| start <= j < i ==> #[trigger] f@[j] != ',',
            forall|a: int, b: int|
                #[trigger] is_piece(f@, ',', a, b) && b < i ==> !occurs_in(t@, f@.subrange(a, b)),
        decreases n - i,
    {
        if i == n || f[i] == ',' {
            if occurs(&t, &f, start, i) {
                assert(is_piece(f@, ',', start as int, i as int));
                return true;
            }
            proof {
                assert forall|a: int, b: int|
                    #[trigger] is_piece(f@, ',', a, b) && b < i + 1 implies !occurs_in(
                        t@,
                        f@.subrange(a, b),
                    ) by {
                    if b == i {
                        if a < start {
                            assert(f@[start - 1] != ',');
                        } else if a > start {
                            assert(f@[a - 1] != ',');
                        }
                    }
                }
            }
            if i == n {
                return false;
            }
            start = i + 1;
        } else {
            proof {
                assert forall|a: int, b: int|
                    #[trigger] is_piece(f@, ',', a, b) && b < i + 1 implies !occurs_in(
                        t@,
                        f@.subrange(a, b),
                    ) by {
                    if b == i {
                        assert(f@[b] == ',');
                    }
                }
            }
        }
        i = i + 1;
    }
}

} // verus!
