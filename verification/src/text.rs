//! Text helpers: comparison of names, decimal rendering of coordinates and the
//! escaping of chip tile names.

use vstd::prelude::*;

verus! {

/// The decimal digit for a value below ten.
pub open spec fn digit_char(d: int) -> char {
    if d == 0 {
        '0'
    } else if d == 1 {
        '1'
    } else if d == 2 {
        '2'
    } else if d == 3 {
        '3'
    } else if d == 4 {
        '4'
    } else if d == 5 {
        '5'
    } else if d == 6 {
        '6'
    } else if d == 7 {
        '7'
    } else if d == 8 {
        '8'
    } else {
        '9'
    }
}

/// The decimal digits of a natural number, most significant first, without
/// leading zeros.
pub open spec fn decimal_digits(n: nat) -> Seq<char>
    decreases n,
{
    if n < 10 {
        seq![digit_char(n as int)]
    } else {
        decimal_digits(n / 10).push(digit_char((n % 10) as int))
    }
}

/// The decimal rendering of an integer, with a leading minus sign when negative.
pub open spec fn decimal(n: int) -> Seq<char> {
    if n < 0 {
        seq!['-'] + decimal_digits((-n) as nat)
    } else {
        decimal_digits(n as nat)
    }
}

/// The name of the site called `name` at a row and a column of the grid.
pub open spec fn site_name(row: int, col: int, name: Seq<char>) -> Seq<char> {
    seq!['R'] + decimal(row) + seq!['C'] + decimal(col) + seq!['_'] + name
}

/// The name of tile type number `index`.
pub open spec fn tile_type_name(index: int) -> Seq<char> {
    seq!['t', 'i', 'l', 'e', 't', 'y', 'p', 'e', '_'] + decimal(index)
}

/// A chip tile name with every colon replaced by two underscores.
pub open spec fn escape_colons(s: Seq<char>) -> Seq<char>
    decreases s.len(),
{
    if s.len() == 0 {
        Seq::empty()
    } else if s.last() == ':' {
        escape_colons(s.drop_last()) + seq!['_', '_']
    } else {
        escape_colons(s.drop_last()).push(s.last())
    }
}

/// Strict lexicographic order on byte strings: `a` and `b` agree on their first
/// `k` bytes, and then either `a` ends while `b` goes on, or `a` has the smaller
/// byte.
pub open spec fn bytes_before(a: Seq<u8>, b: Seq<u8>) -> bool {
    exists|k: int| #[trigger] splits_before(a, b, k)
}

/// `k` witnesses that `a` sorts strictly before `b`.
pub open spec fn splits_before(a: Seq<u8>, b: Seq<u8>, k: int) -> bool {
    &&& 0 <= k <= a.len()
    &&& k < b.len()
    &&& forall|i: int| 0 <= i < k ==> a[i] == b[i]
    &&& (k < a.len() ==> a[k] < b[k])
}

/// Strict order on names: lexicographic by the bytes of their UTF-8 encoding.
pub open spec fn name_before(a: Seq<char>, b: Seq<char>) -> bool {
    bytes_before(vstd::utf8::encode_utf8(a), vstd::utf8::encode_utf8(b))
}

/// No byte string sorts before itself.
pub proof fn lemma_bytes_before_irreflexive(a: Seq<u8>)
    ensures
        !bytes_before(a, a),
{
    if bytes_before(a, a) {
        let k = choose|k: int| #[trigger] splits_before(a, a, k);
        assert(splits_before(a, a, k));
    }
}

/// The order on byte strings is transitive.
pub proof fn lemma_bytes_before_transitive(a: Seq<u8>, b: Seq<u8>, c: Seq<u8>)
    requires
        bytes_before(a, b),
        bytes_before(b, c),
    ensures
        bytes_before(a, c),
{
    let k1 = choose|k: int| #[trigger] splits_before(a, b, k);
    let k2 = choose|k: int| #[trigger] splits_before(b, c, k);
    let k = if k1 <= k2 {
        k1
    } else {
        k2
    };
    assert(splits_before(a, c, k));
}

/// Two byte strings are equal, or one sorts before the other.
pub proof fn lemma_bytes_before_total(a: Seq<u8>, b: Seq<u8>)
    ensures
        a == b || bytes_before(a, b) || bytes_before(b, a),
{
    lemma_first_difference(a, b, 0);
}

proof fn lemma_first_difference(a: Seq<u8>, b: Seq<u8>, k: int)
    requires
        0 <= k <= a.len(),
        k <= b.len(),
        forall|i: int| 0 <= i < k ==> a[i] == b[i],
    ensures
        a == b || bytes_before(a, b) || bytes_before(b, a),
    decreases a.len() - k,
{
    if k == a.len() {
        if k == b.len() {
            assert(a =~= b);
        } else {
            assert(splits_before(a, b, k));
        }
    } else if k == b.len() {
        assert(splits_before(b, a, k));
    } else if a[k] < b[k] {
        assert(splits_before(a, b, k));
    } else if b[k] < a[k] {
        assert(splits_before(b, a, k));
    } else {
        lemma_first_difference(a, b, k + 1);
    }
}

/// Names with the same UTF-8 bytes are the same name.
pub proof fn lemma_same_bytes_same_name(a: Seq<char>, b: Seq<char>)
    requires
        vstd::utf8::encode_utf8(a) == vstd::utf8::encode_utf8(b),
    ensures
        a == b,
{
    vstd::utf8::encode_utf8_decode_utf8(a);
    vstd::utf8::encode_utf8_decode_utf8(b);
}

/// Whether two names are the same text.
pub fn same_name(a: &str, b: &str) -> (r: bool)
    ensures
        r == (a@ == b@),
{
    let x = a.as_bytes();
    let y = b.as_bytes();
    if x.len() != y.len() {
        return false;
    }
    let mut i: usize = 0;
    while i < x.len()
        invariant
            i <= x.len(),
            x.len() == y.len(),
            x@ == vstd::utf8::encode_utf8(a@),
            y@ == vstd::utf8::encode_utf8(b@),
            forall|j: int| 0 <= j < i ==> x@[j] == y@[j],
        decreases x.len() - i,
    {
        if x[i] != y[i] {
            assert(x@[i as int] != y@[i as int]);
            assert(a@ != b@);
            return false;
        }
        i += 1;
    }
    proof {
        assert(x@ =~= y@);
        lemma_same_bytes_same_name(a@, b@);
    }
    true
}

/// Whether name `a` sorts strictly before name `b`.
pub fn sorts_before(a: &str, b: &str) -> (r: bool)
    ensures
        r == name_before(a@, b@),
{
    let x = a.as_bytes();
    let y = b.as_bytes();
    let mut i: usize = 0;
    while i < x.len() && i < y.len()
        invariant
            i <= x.len(),
            i <= y.len(),
            x@ == vstd::utf8::encode_utf8(a@),
            y@ == vstd::utf8::encode_utf8(b@),
            forall|j: int| 0 <= j < i ==> x@[j] == y@[j],
        decreases x.len() - i,
    {
        if x[i] != y[i] {
            let less = x[i] < y[i];
            proof {
                if less {
                    assert(splits_before(x@, y@, i as int));
                } else {
                    assert(x@[i as int] > y@[i as int]);
                    assert forall|k: int| !splits_before(x@, y@, k) by {
                        if splits_before(x@, y@, k) {
                            if k > i {
                                assert(x@[i as int] == y@[i as int]);
                            } else if k < i {
                                assert(x@[k] == y@[k]);
                            }
                        }
                    }
                }
                assert(less == bytes_before(x@, y@));
            }
            return less;
        }
        i += 1;
    }
    let shorter = x.len() < y.len();
    proof {
        if shorter {
            assert(splits_before(x@, y@, i as int));
        } else {
            assert forall|k: int| !splits_before(x@, y@, k) by {
                if splits_before(x@, y@, k) {
                    if k < x@.len() {
                        assert(x@[k] == y@[k]);
                    }
                }
            }
        }
    }
    shorter
}

/// The text of one decimal digit.
fn digit_text(d: u64) -> (s: &'static str)
    requires
        d < 10,
    ensures
        s@ == seq![digit_char(d as int)],
{
    proof {
        reveal_strlit("0");
        reveal_strlit("1");
        reveal_strlit("2");
        reveal_strlit("3");
        reveal_strlit("4");
        reveal_strlit("5");
        reveal_strlit("6");
        reveal_strlit("7");
        reveal_strlit("8");
        reveal_strlit("9");
    }
    let s = if d == 0 {
        "0"
    } else if d == 1 {
        "1"
    } else if d == 2 {
        "2"
    } else if d == 3 {
        "3"
    } else if d == 4 {
        "4"
    } else if d == 5 {
        "5"
    } else if d == 6 {
        "6"
    } else if d == 7 {
        "7"
    } else if d == 8 {
        "8"
    } else {
        "9"
    };
    assert(s@ =~= seq![digit_char(d as int)]);
    s
}

/// Appends the decimal digits of `n` to `out`.
fn push_digits(out: &mut String, n: u64)
    ensures
        final(out)@ == old(out)@ + decimal_digits(n as nat),
    decreases n,
{
    if n >= 10 {
        push_digits(out, n / 10);
    }
    out.append(digit_text(n % 10));
    assert(out@ =~= old(out)@ + decimal_digits(n as nat));
}

/// Appends the decimal rendering of `n` to `out`.
pub fn push_decimal(out: &mut String, n: i64)
    ensures
        final(out)@ == old(out)@ + decimal(n as int),
{
    if n < 0 {
        proof {
            reveal_strlit("-");
        }
        out.append("-");
        let magnitude: u64 = ((-(n + 1)) as u64) + 1;
        push_digits(out, magnitude);
        assert(out@ =~= old(out)@ + decimal(n as int));
    } else {
        push_digits(out, n as u64);
    }
}

/// The name of the site called `name` at a row and a column of the grid.
pub fn make_site_name(row: i64, col: i64, name: &str) -> (out: String)
    ensures
        out@ == site_name(row as int, col as int, name@),
{
    proof {
        reveal_strlit("R");
        reveal_strlit("C");
        reveal_strlit("_");
    }
    let mut out = String::new();
    out.append("R");
    push_decimal(&mut out, row);
    out.append("C");
    push_decimal(&mut out, col);
    out.append("_");
    out.append(name);
    assert(out@ =~= site_name(row as int, col as int, name@));
    out
}

/// The name of tile type number `index`.
pub fn make_tile_type_name(index: usize) -> (out: String)
    ensures
        out@ == tile_type_name(index as int),
{
    proof {
        reveal_strlit("tiletype_");
    }
    let mut out = String::new();
    out.append("tiletype_");
    push_digits(&mut out, index as u64);
    assert(out@ =~= tile_type_name(index as int));
    out
}

/// A chip tile name with every colon replaced by two underscores, so that it
/// can serve as a name prefix.
pub fn escaped(name: &str) -> (out: String)
    ensures
        out@ == escape_colons(name@),
{
    let n = name.unicode_len();
    let mut out = String::new();
    let mut i: usize = 0;
    while i < n
        invariant
            i <= n,
            n == name@.len(),
            out@ == escape_colons(name@.take(i as int)),
        decreases n - i,
    {
        let c = name.get_char(i);
        proof {
            assert(name@.take(i + 1).drop_last() =~= name@.take(i as int));
            assert(name@.take(i + 1).last() == name@[i as int]);
        }
        if c == ':' {
            out.append("__");
            proof {
                reveal_strlit("__");
                assert("__"@ =~= seq!['_', '_']);
            }
        } else {
            let piece = name.substring_char(i, i + 1);
            out.append(piece);
            proof {
                assert(piece@ =~= seq![name@[i as int]]);
                assert(out@ =~= escape_colons(name@.take(i as int)).push(name@[i as int]));
            }
        }
        i += 1;
    }
    proof {
        assert(name@.take(n as int) =~= name@);
    }
    out
}

} // verus!
