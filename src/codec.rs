//! The canonical binary form of a release package.
//!
//! Lengths are written as ULEB128 (seven bits per byte, low group first, high bit set
//! on every byte but the last) and may not exceed `MAX_LEN`. A byte string is its length
//! followed by its bytes; a list is its number of items followed by the items.
use vstd::prelude::*;

verus! {

/// The largest length or item count the format carries.
pub const MAX_LEN: u64 = 0xffff_ffff;

/// The most bytes a length prefix may take.
pub const MAX_PREFIX: u64 = 5;

pub open spec fn pow128(k: nat) -> nat
    decreases k,
{
    if k == 0 {
        1
    } else {
        128 * pow128((k - 1) as nat)
    }
}

/// The ULEB128 form of `n`.
pub open spec fn uleb(n: nat) -> Seq<u8>
    decreases n,
{
    if n < 128 {
        seq![n as u8]
    } else {
        seq![((n % 128) + 128) as u8] + uleb(n / 128)
    }
}

/// A length-prefixed byte string.
pub open spec fn bytes_enc(x: Seq<u8>) -> Seq<u8> {
    uleb(x.len()) + x
}

/// The byte strings of `xs`, each length-prefixed, one after another.
pub open spec fn items_enc(xs: Seq<Seq<u8>>) -> Seq<u8>
    decreases xs.len(),
{
    if xs.len() == 0 {
        Seq::empty()
    } else {
        items_enc(xs.drop_last()) + bytes_enc(xs.last())
    }
}

/// A list of byte strings: the item count, then the items.
pub open spec fn list_enc(xs: Seq<Seq<u8>>) -> Seq<u8> {
    uleb(xs.len()) + items_enc(xs)
}

/// Every length in `xs`, and their number, is within `MAX_LEN`.
pub open spec fn list_fits(xs: Seq<Seq<u8>>) -> bool {
    xs.len() <= MAX_LEN && forall|k: int| 0 <= k < xs.len() ==> xs[k].len() <= MAX_LEN
}

/// Reads a ULEB128 number at `i`, having read `acc` so far, where the next group
/// counts `mult` times; at most `fuel` more bytes are read.
pub open spec fn uleb_from(b: Seq<u8>, i: int, acc: nat, mult: nat, fuel: nat) -> Option<(nat, int)>
    decreases fuel,
{
    if fuel == 0 || i < 0 || i >= b.len() {
        None
    } else if b[i] < 128 {
        Some(((acc + b[i] * mult) as nat, i + 1))
    } else {
        uleb_from(b, i + 1, (acc + (b[i] - 128) * mult) as nat, mult * 128, (fuel - 1) as nat)
    }
}

/// The length prefix at `i` and the position after it.
pub open spec fn parse_uleb(b: Seq<u8>, i: int) -> Option<(nat, int)> {
    uleb_from(b, i, 0, 1, MAX_PREFIX as nat)
}

/// The length-prefixed byte string at `i` and the position after it.
pub open spec fn parse_bytes(b: Seq<u8>, i: int) -> Option<(Seq<u8>, int)> {
    match parse_uleb(b, i) {
        Some((n, j)) => if j + n <= b.len() {
            Some((b.subrange(j, j + n), j + n))
        } else {
            None
        },
        None => None,
    }
}

/// `n` length-prefixed byte strings from `i` on, and the position after them.
pub open spec fn parse_items(b: Seq<u8>, i: int, n: nat) -> Option<(Seq<Seq<u8>>, int)>
    decreases n,
{
    if n == 0 {
        Some((Seq::empty(), i))
    } else {
        match parse_items(b, i, (n - 1) as nat) {
            Some((xs, j)) => match parse_bytes(b, j) {
                Some((x, k)) => Some((xs.push(x), k)),
                None => None,
            },
            None => None,
        }
    }
}

/// The list of byte strings at `i` and the position after it.
pub open spec fn parse_list(b: Seq<u8>, i: int) -> Option<(Seq<Seq<u8>>, int)> {
    match parse_uleb(b, i) {
        Some((n, j)) => parse_items(b, j, n),
        None => None,
    }
}

/// `e` stands in `b` from position `i` on.
pub open spec fn placed(b: Seq<u8>, i: int, e: Seq<u8>) -> bool {
    0 <= i && i + e.len() <= b.len() && b.subrange(i, i + e.len()) == e
}

pub proof fn lemma_placed_split(b: Seq<u8>, i: int, e1: Seq<u8>, e2: Seq<u8>)
    requires
        placed(b, i, e1 + e2),
    ensures
        placed(b, i, e1),
        placed(b, i + e1.len(), e2),
{
    let whole = b.subrange(i, i + (e1 + e2).len());
    assert(whole == e1 + e2);
    assert(b.subrange(i, i + e1.len()) =~= whole.subrange(0, e1.len() as int));
    assert(whole.subrange(0, e1.len() as int) =~= e1);
    assert(b.subrange(i + e1.len(), i + e1.len() + e2.len()) =~= whole.subrange(
        e1.len() as int,
        whole.len() as int,
    ));
    assert(whole.subrange(e1.len() as int, whole.len() as int) =~= e2);
}

/// A ULEB128 number reads back as itself.
pub proof fn lemma_uleb_round_trip(b: Seq<u8>, i: int, n: nat, acc: nat, mult: nat, fuel: nat)
    requires
        fuel >= 1,
        n < pow128(fuel),
        placed(b, i, uleb(n)),
    ensures
        uleb_from(b, i, acc, mult, fuel) == Some((acc + n * mult, i + uleb(n).len())),
    decreases n,
{
    assert(b[i] == uleb(n)[0]);
    if n >= 128 {
        let rest = uleb(n / 128);
        assert(uleb(n) == seq![((n % 128) + 128) as u8] + rest);
        lemma_placed_split(b, i, seq![((n % 128) + 128) as u8], rest);
        assert(n / 128 < pow128((fuel - 1) as nat)) by (nonlinear_arith)
            requires
                n < 128 * pow128((fuel - 1) as nat),
        ;
        assert(fuel - 1 >= 1) by {
            if fuel == 1 {
                assert(pow128(0) == 1);
            }
        }
        lemma_uleb_round_trip(b, i + 1, n / 128, acc + (n % 128) * mult, mult * 128, (fuel - 1) as nat);
        assert(acc + (n % 128) * mult + (n / 128) * (mult * 128) == acc + n * mult) by (nonlinear_arith);
    }
}

pub proof fn lemma_prefix_round_trip(b: Seq<u8>, i: int, n: nat)
    requires
        n <= MAX_LEN,
        placed(b, i, uleb(n)),
    ensures
        parse_uleb(b, i) == Some((n, i + uleb(n).len())),
{
    reveal_with_fuel(pow128, 6);
    lemma_uleb_round_trip(b, i, n, 0, 1, MAX_PREFIX as nat);
}

/// A length-prefixed byte string reads back as itself.
pub proof fn lemma_bytes_round_trip(b: Seq<u8>, i: int, x: Seq<u8>)
    requires
        x.len() <= MAX_LEN,
        placed(b, i, bytes_enc(x)),
    ensures
        parse_bytes(b, i) == Some((x, i + bytes_enc(x).len())),
{
    lemma_placed_split(b, i, uleb(x.len()), x);
    lemma_prefix_round_trip(b, i, x.len());
}

pub proof fn lemma_items_round_trip(b: Seq<u8>, i: int, xs: Seq<Seq<u8>>)
    requires
        list_fits(xs),
        placed(b, i, items_enc(xs)),
    ensures
        parse_items(b, i, xs.len()) == Some((xs, i + items_enc(xs).len())),
    decreases xs.len(),
{
    if xs.len() == 0 {
        assert(xs =~= Seq::<Seq<u8>>::empty());
    } else {
        let front = xs.drop_last();
        lemma_placed_split(b, i, items_enc(front), bytes_enc(xs.last()));
        assert(list_fits(front)) by {
            assert forall|k: int| 0 <= k < front.len() implies front[k].len() <= MAX_LEN by {
                assert(front[k] == xs[k]);
            }
        }
        lemma_items_round_trip(b, i, front);
        lemma_bytes_round_trip(b, i + items_enc(front).len(), xs.last());
        assert(front.push(xs.last()) =~= xs);
    }
}

/// A list of byte strings reads back as itself.
pub proof fn lemma_list_round_trip(b: Seq<u8>, i: int, xs: Seq<Seq<u8>>)
    requires
        list_fits(xs),
        placed(b, i, list_enc(xs)),
    ensures
        parse_list(b, i) == Some((xs, i + list_enc(xs).len())),
{
    lemma_placed_split(b, i, uleb(xs.len()), items_enc(xs));
    lemma_prefix_round_trip(b, i, xs.len());
    lemma_items_round_trip(b, i + uleb(xs.len()).len(), xs);
}

/// The byte strings that `xs` holds.
pub open spec fn views(xs: Seq<Vec<u8>>) -> Seq<Seq<u8>> {
    xs.map_values(|x: Vec<u8>| x@)
}

/// Appends the ULEB128 form of `n`.
pub fn push_uleb(out: &mut Vec<u8>, n: u64)
    ensures
        final(out)@ == old(out)@ + uleb(n as nat),
{
    let mut v: u64 = n;
    while v >= 128
        invariant
            old(out)@ + uleb(n as nat) == out@ + uleb(v as nat),
        decreases v,
    {
        let ghost before = out@;
        out.push((v % 128 + 128) as u8);
        assert(uleb(v as nat) == seq![((v % 128) + 128) as u8] + uleb((v / 128) as nat));
        assert(before + uleb(v as nat) =~= out@ + uleb((v / 128) as nat));
        v = v / 128;
    }
    out.push(v as u8);
    assert(uleb(v as nat) =~= seq![v as u8]);
}

/// Appends `x` with its length in front.
pub fn push_bytes(out: &mut Vec<u8>, x: &Vec<u8>)
    requires
        x@.len() <= MAX_LEN,
    ensures
        final(out)@ == old(out)@ + bytes_enc(x@),
{
    push_uleb(out, x.len() as u64);
    let ghost start = out@;
    let mut k: usize = 0;
    while k < x.len()
        invariant
            out@ == start + x@.subrange(0, k as int),
            k <= x@.len(),
        decreases x@.len() - k,
    {
        out.push(x[k]);
        assert(x@.subrange(0, k + 1) =~= x@.subrange(0, k as int).push(x@[k as int]));
        k = k + 1;
    }
    assert(x@.subrange(0, k as int) =~= x@);
}

/// Appends the list `xs`: its item count, then each item with its length in front.
pub fn push_list(out: &mut Vec<u8>, xs: &Vec<Vec<u8>>)
    requires
        list_fits(views(xs@)),
    ensures
        final(out)@ == old(out)@ + list_enc(views(xs@)),
{
    push_uleb(out, xs.len() as u64);
    let ghost start = out@;
    let mut k: usize = 0;
    while k < xs.len()
        invariant
            list_fits(views(xs@)),
            out@ == start + items_enc(views(xs@).subrange(0, k as int)),
            k <= xs@.len(),
        decreases xs@.len() - k,
    {
        assert(views(xs@)[k as int] == xs@[k as int]@);
        let ghost front = views(xs@).subrange(0, k as int);
        push_bytes(out, &xs[k]);
        let ghost next = views(xs@).subrange(0, k + 1);
        assert(next.drop_last() =~= front);
        assert(items_enc(next) == items_enc(front) + bytes_enc(next.last()));
        k = k + 1;
    }
    assert(views(xs@).subrange(0, k as int) =~= views(xs@));
}

/// Reads the length prefix at `i`.
pub fn read_uleb(b: &Vec<u8>, i: usize) -> (r: Option<(u64, usize)>)
    ensures
        match parse_uleb(b@, i as int) {
            Some((n, j)) => r matches Some((v, k)) && v as nat == n && k as int == j && n
                < 0x8_0000_0000 && i < j <= b@.len(),
            None => r is None,
        },
{
    let mut acc: u64 = 0;
    let mut mult: u64 = 1;
    let mut fuel: u64 = MAX_PREFIX;
    let mut k: usize = i;
    loop
        invariant
            i <= k,
            fuel <= MAX_PREFIX,
            k - i == MAX_PREFIX - fuel,
            acc < mult,
            fuel == 5 && mult == 1 || fuel == 4 && mult == 128 || fuel == 3 && mult == 16384
                || fuel == 2 && mult == 2097152 || fuel == 1 && mult == 268435456 || fuel == 0
                && mult == 34359738368,
            uleb_from(b@, k as int, acc as nat, mult as nat, fuel as nat) == parse_uleb(b@, i as int),
        decreases fuel,
    {
        if fuel == 0 || k >= b.len() {
            return None;
        }
        let x = b[k];
        if x < 128 {
            assert(x * mult <= 127 * mult) by (nonlinear_arith)
                requires
                    x < 128,
            ;
            proof {
                reveal_with_fuel(pow128, 6);
            }
            assert(pow128(MAX_PREFIX as nat) == 0x8_0000_0000);
            assert(uleb_from(b@, k as int, acc as nat, mult as nat, fuel as nat) == Some(
                ((acc + x * mult) as nat, k + 1),
            ));
            return Some((acc + x as u64 * mult, k + 1));
        }
        assert((x - 128) * mult <= 127 * mult) by (nonlinear_arith)
            requires
                x - 128 < 128,
        ;
        acc = acc + (x - 128) as u64 * mult;
        mult = mult * 128;
        fuel = fuel - 1;
        k = k + 1;
    }
}

pub proof fn lemma_items_fail_stays(b: Seq<u8>, i: int, m: nat, n: nat)
    requires
        m <= n,
        parse_items(b, i, m) is None,
    ensures
        parse_items(b, i, n) is None,
    decreases n,
{
    if m < n {
        lemma_items_fail_stays(b, i, m, (n - 1) as nat);
    }
}

/// Reads the length-prefixed byte string at `i`.
pub fn read_bytes(b: &Vec<u8>, i: usize) -> (r: Option<(Vec<u8>, usize)>)
    ensures
        match parse_bytes(b@, i as int) {
            Some((x, j)) => r matches Some((v, k)) && v@ == x && k == j && j <= b@.len(),
            None => r is None,
        },
{
    let (n, j) = match read_uleb(b, i) {
        Some(p) => p,
        None => return None,
    };
    if n > (b.len() - j) as u64 {
        return None;
    }
    let end = j + n as usize;
    let mut v: Vec<u8> = Vec::new();
    let mut k: usize = j;
    while k < end
        invariant
            j <= k <= end <= b@.len(),
            v@ == b@.subrange(j as int, k as int),
        decreases end - k,
    {
        v.push(b[k]);
        assert(b@.subrange(j as int, k + 1) =~= b@.subrange(j as int, k as int).push(b@[k as int]));
        k = k + 1;
    }
    Some((v, end))
}

/// Reads the list of byte strings at `i`.
pub fn read_list(b: &Vec<u8>, i: usize) -> (r: Option<(Vec<Vec<u8>>, usize)>)
    ensures
        match parse_list(b@, i as int) {
            Some((xs, j)) => r matches Some((v, k)) && views(v@) == xs && k == j && j <= b@.len(),
            None => r is None,
        },
{
    let (n, j) = match read_uleb(b, i) {
        Some(p) => p,
        None => return None,
    };
    let mut items: Vec<Vec<u8>> = Vec::new();
    let mut pos: usize = j;
    let mut c: u64 = 0;
    while c < n
        invariant
            c <= n,
            pos <= b@.len(),
            parse_uleb(b@, i as int) == Some((n as nat, j as int)),
            parse_items(b@, j as int, c as nat) == Some((views(items@), pos as int)),
        decreases n - c,
    {
        match read_bytes(b, pos) {
            Some((x, next)) => {
                let ghost before = items@;
                items.push(x);
                assert(views(items@) =~= views(before).push(x@));
                pos = next;
            },
            None => {
                proof {
                    lemma_items_fail_stays(b@, j as int, (c + 1) as nat, n as nat);
                }
                return None;
            },
        }
        c = c + 1;
    }
    Some((items, pos))
}

/// Whether every length in `xs`, and their number, is within `MAX_LEN`.
pub fn list_within(xs: &Vec<Vec<u8>>) -> (r: bool)
    ensures
        r == list_fits(views(xs@)),
{
    if xs.len() as u64 > MAX_LEN {
        return false;
    }
    let mut k: usize = 0;
    while k < xs.len()
        invariant
            k <= xs@.len(),
            forall|m: int| 0 <= m < k ==> views(xs@)[m].len() <= MAX_LEN,
        decreases xs@.len() - k,
    {
        if xs[k].len() as u64 > MAX_LEN {
            assert(views(xs@)[k as int] == xs@[k as int]@);
            return false;
        }
        k = k + 1;
    }
    true
}

/// A copy of `x`.
pub fn copy_bytes(x: &Vec<u8>) -> (r: Vec<u8>)
    ensures
        r@ == x@,
{
    let mut v: Vec<u8> = Vec::new();
    let mut k: usize = 0;
    while k < x.len()
        invariant
            k <= x@.len(),
            v@ == x@.subrange(0, k as int),
        decreases x@.len() - k,
    {
        v.push(x[k]);
        assert(x@.subrange(0, k + 1) =~= x@.subrange(0, k as int).push(x@[k as int]));
        k = k + 1;
    }
    assert(x@.subrange(0, k as int) =~= x@);
    v
}

} // verus!
