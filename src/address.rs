//! Parsing of `name:address` pairs given on the command line.
use vstd::prelude::*;

verus! {

/// Index of the first occurrence of `c` in `s` at or after `i`, or `s.len()` if none.
pub open spec fn first_from(s: Seq<char>, i: int, c: char) -> int
    decreases s.len() - i,
{
    if i < 0 || i >= s.len() {
        s.len() as int
    } else if s[i] == c {
        i
    } else {
        first_from(s, i + 1, c)
    }
}

pub proof fn lemma_first_from_bounds(s: Seq<char>, i: int, c: char)
    requires
        0 <= i <= s.len(),
    ensures
        i <= first_from(s, i, c) <= s.len(),
        first_from(s, i, c) < s.len() ==> s[first_from(s, i, c)] == c,
    decreases s.len() - i,
{
    if i < s.len() && s[i] != c {
        lemma_first_from_bounds(s, i + 1, c);
    }
}

/// Finds the first `c` in `s` at or after `from`.
pub fn find_char(s: &str, from: usize, c: char) -> (r: usize)
    requires
        from <= s@.len(),
    ensures
        r == first_from(s@, from as int, c),
{
    let len = s.unicode_len();
    let mut i: usize = from;
    while i < len
        invariant
            len == s@.len(),
            from <= i <= len,
            first_from(s@, from as int, c) == first_from(s@, i as int, c),
        decreases len - i,
    {
        if s.get_char(i) == c {
            return i;
        }
        i = i + 1;
    }
    i
}

/// The message given for an entry without a `:` separator.
pub open spec fn missing_address_message() -> Seq<char> {
    "Not found address name in address_map"@
}

/// What parsing `s` as `name:address` gives: the text before the first `:`, and the
/// text between it and the next `:` (or the end); `None` when there is no `:`.
pub open spec fn address_pair(s: Seq<char>) -> Option<(Seq<char>, Seq<char>)> {
    let c1 = first_from(s, 0, ':');
    if c1 >= s.len() {
        None
    } else {
        Some((s.subrange(0, c1), s.subrange(c1 + 1, first_from(s, c1 + 1, ':'))))
    }
}

/// Parses one `name:address` entry.
pub fn parse_address_map(address_map: &str) -> (r: Result<(String, String), String>)
    ensures
        match address_pair(address_map@) {
            Some((n, a)) => r matches Ok((name, addr)) && name@ == n && addr@ == a,
            None => r matches Err(e) && e@ == missing_address_message(),
        },
{
    let len = address_map.unicode_len();
    let c1 = find_char(address_map, 0, ':');
    proof {
        lemma_first_from_bounds(address_map@, 0, ':');
    }
    if c1 >= len {
        return Err(String::from_str("Not found address name in address_map"));
    }
    let c2 = find_char(address_map, c1 + 1, ':');
    proof {
        lemma_first_from_bounds(address_map@, c1 + 1, ':');
    }
    let name = String::from_str(address_map.substring_char(0, c1));
    let addr = String::from_str(address_map.substring_char(c1 + 1, c2));
    Ok((name, addr))
}

/// The pieces of `s[start..]` split at `c`, the piece in progress having begun at
/// `start` and the scan standing at `i`.
pub open spec fn split_rec(s: Seq<char>, c: char, start: int, i: int) -> Seq<Seq<char>>
    decreases s.len() - i,
{
    if i < 0 || i >= s.len() {
        seq![s.subrange(start, s.len() as int)]
    } else if s[i] == c {
        seq![s.subrange(start, i)] + split_rec(s, c, i + 1, i + 1)
    } else {
        split_rec(s, c, start, i + 1)
    }
}

/// The pieces of `s` split at every `c`; there is always at least one.
pub open spec fn split_at_char(s: Seq<char>, c: char) -> Seq<Seq<char>> {
    split_rec(s, c, 0, 0)
}

/// Parses a comma-separated list of `name:address` entries; fails on the first entry
/// without a `:`.
pub fn parse_address_maps(address_maps: &str) -> (r: Result<Vec<(String, String)>, String>)
    ensures
        ({
            let ps = split_at_char(address_maps@, ',');
            &&& (forall|k: int| 0 <= k < ps.len() ==> (#[trigger] address_pair(ps[k])) is Some)
                ==> r is Ok
            &&& r matches Ok(v) ==> v@.len() == ps.len() && forall|k: int|
                0 <= k < ps.len() ==> (#[trigger] address_pair(ps[k])) == Some(
                    (v@[k].0@, v@[k].1@),
                )
            &&& r matches Err(e) ==> e@ == missing_address_message() && exists|k: int|
                0 <= k < ps.len() && (#[trigger] address_pair(ps[k])) is None
        }),
{
    let ghost ps = split_at_char(address_maps@, ',');
    let len = address_maps.unicode_len();
    let mut out: Vec<(String, String)> = Vec::new();
    let mut start: usize = 0;
    let mut i: usize = 0;
    loop
        invariant
            len == address_maps@.len(),
            start <= i <= len,
            ps == split_at_char(address_maps@, ','),
            out@.len() <= ps.len(),
            ps == ps.subrange(0, out@.len() as int) + split_rec(address_maps@, ',', start as int, i as int),
            forall|k: int|
                0 <= k < out@.len() ==> (#[trigger] address_pair(ps[k])) == Some(
                    (out@[k].0@, out@[k].1@),
                ),
        decreases len - i,
    {
        if i == len || address_maps.get_char(i) == ',' {
            let ghost rest = split_rec(address_maps@, ',', start as int, i as int);
            let piece = address_maps.substring_char(start, i);
            assert(rest[0] == piece@);
            assert(ps[out@.len() as int] == rest[0]);
            match parse_address_map(piece) {
                Ok(pair) => {
                    let ghost before = out@;
                    out.push(pair);
                    assert(ps.subrange(0, out@.len() as int) =~= ps.subrange(0, before.len() as int).push(piece@));
                    if i == len {
                        assert(ps =~= ps.subrange(0, out@.len() as int));
                        return Ok(out);
                    }
                    assert(ps == ps.subrange(0, out@.len() as int) + split_rec(address_maps@, ',', i + 1, i + 1)) by {
                        assert(rest == seq![piece@] + split_rec(address_maps@, ',', i + 1, i + 1));
                        assert(ps.subrange(0, before.len() as int) + rest =~= ps.subrange(0, out@.len() as int) + split_rec(address_maps@, ',', i + 1, i + 1));
                    }
                    start = i + 1;
                },
                Err(e) => {
                    return Err(e);
                },
            }
        }
        i = i + 1;
    }
}

/// `a` comes before `b` comparing from position `i` on, character by character, a
/// proper prefix first: the order of `String`.
pub open spec fn name_lt_at(a: Seq<char>, b: Seq<char>, i: int) -> bool
    decreases a.len() - i,
{
    if i < 0 || i >= a.len() {
        0 <= i < b.len()
    } else if i >= b.len() {
        false
    } else if a[i] != b[i] {
        (a[i] as int) < (b[i] as int)
    } else {
        name_lt_at(a, b, i + 1)
    }
}

/// `a` sorts before `b`.
pub open spec fn name_lt(a: Seq<char>, b: Seq<char>) -> bool {
    name_lt_at(a, b, 0)
}

proof fn lemma_name_lt_irreflexive(a: Seq<char>, i: int)
    requires
        0 <= i,
    ensures
        !name_lt_at(a, a, i),
    decreases a.len() - i,
{
    if i < a.len() {
        lemma_name_lt_irreflexive(a, i + 1);
    }
}

proof fn lemma_name_lt_transitive(a: Seq<char>, b: Seq<char>, c: Seq<char>, i: int)
    requires
        0 <= i,
        name_lt_at(a, b, i),
        name_lt_at(b, c, i),
    ensures
        name_lt_at(a, c, i),
    decreases a.len() - i,
{
    if i < a.len() && i < b.len() && i < c.len() && a[i] == b[i] && b[i] == c[i] {
        lemma_name_lt_transitive(a, b, c, i + 1);
    }
}

proof fn lemma_name_lt_total(a: Seq<char>, b: Seq<char>, i: int)
    requires
        0 <= i <= a.len(),
        i <= b.len(),
        a.subrange(0, i) == b.subrange(0, i),
        a != b,
    ensures
        name_lt_at(a, b, i) || name_lt_at(b, a, i),
    decreases a.len() - i,
{
    if i == a.len() && i == b.len() {
        assert(a =~= a.subrange(0, i));
        assert(b =~= b.subrange(0, i));
    } else if i < a.len() && i < b.len() && a[i] == b[i] {
        assert(a.subrange(0, i + 1) =~= a.subrange(0, i).push(a[i]));
        assert(b.subrange(0, i + 1) =~= b.subrange(0, i).push(b[i]));
        lemma_name_lt_total(a, b, i + 1);
    } else if i < a.len() && i < b.len() {
        assert((a[i] as int) != (b[i] as int));
    }
}

proof fn lemma_name_lt_total_from_start(a: Seq<char>, b: Seq<char>)
    requires
        a != b,
    ensures
        name_lt(a, b) || name_lt(b, a),
{
    assert(a.subrange(0, 0) =~= b.subrange(0, 0));
    lemma_name_lt_total(a, b, 0);
}

/// Whether `a` sorts before `b`.
pub fn name_less(a: &str, b: &str) -> (r: bool)
    ensures
        r == name_lt(a@, b@),
{
    let la = a.unicode_len();
    let lb = b.unicode_len();
    let mut i: usize = 0;
    while i < la && i < lb
        invariant
            la == a@.len(),
            lb == b@.len(),
            i <= la,
            i <= lb,
            name_lt(a@, b@) == name_lt_at(a@, b@, i as int),
        decreases la - i,
    {
        let x = a.get_char(i);
        let y = b.get_char(i);
        if x != y {
            return (x as u32) < (y as u32);
        }
        i = i + 1;
    }
    i == la && i < lb
}

pub open spec fn pair_views(v: Seq<(String, String)>) -> Seq<(Seq<char>, Seq<char>)> {
    v.map_values(|p: (String, String)| (p.0@, p.1@))
}

/// The table that `ps` makes, a later entry for a name replacing an earlier one.
pub open spec fn assoc(ps: Seq<(Seq<char>, Seq<char>)>) -> Map<Seq<char>, Seq<char>>
    decreases ps.len(),
{
    if ps.len() == 0 {
        Map::empty()
    } else {
        assoc(ps.drop_last()).insert(ps.last().0, ps.last().1)
    }
}

/// `t` lists the entries of `m`, one per name, in name order.
pub open spec fn lists_table(t: Seq<(Seq<char>, Seq<char>)>, m: Map<Seq<char>, Seq<char>>) -> bool {
    &&& forall|i: int, j: int| 0 <= i < j < t.len() ==> name_lt(t[i].0, t[j].0)
    &&& forall|k: int| 0 <= k < t.len() ==> m.contains_key(#[trigger] t[k].0) && m[t[k].0] == t[k].1
    &&& forall|n: Seq<char>| #[trigger] m.contains_key(n) ==> exists|k: int| 0 <= k < t.len() && t[k].0 == n
}

/// The named addresses of `pairs` ordered by name, the last address given for a
/// name being the one kept.
///
/// The table is a `Vec` kept sorted rather than a `BTreeMap<String, _>`: vstd specifies
/// such a map's contents only through its key type's view, and with a `String` key
/// Verus proves nothing of it, so neither the order nor which address wins could be
/// stated.
pub fn named_address_table(pairs: &Vec<(String, String)>) -> (r: Vec<(String, String)>)
    ensures
        lists_table(pair_views(r@), assoc(pair_views(pairs@))),
{
    let mut table: Vec<(String, String)> = Vec::new();
    let mut i: usize = 0;
    while i < pairs.len()
        invariant
            i <= pairs@.len(),
            lists_table(pair_views(table@), assoc(pair_views(pairs@).subrange(0, i as int))),
        decreases pairs@.len() - i,
    {
        let ghost t = pair_views(table@);
        let ghost m = assoc(pair_views(pairs@).subrange(0, i as int));
        let name = pairs[i].0.clone();
        let addr = pairs[i].1.clone();
        let ghost m2 = m.insert(name@, addr@);
        assert(pair_views(pairs@).subrange(0, i + 1).drop_last() =~= pair_views(pairs@).subrange(0, i as int));
        assert(pair_views(pairs@).subrange(0, i + 1).last() == (name@, addr@));
        assert(assoc(pair_views(pairs@).subrange(0, i + 1)) == m2);
        let mut p: usize = 0;
        while p < table.len() && name_less(table[p].0.as_str(), name.as_str())
            invariant
                t == pair_views(table@),
                p <= table@.len(),
                forall|q: int| 0 <= q < p ==> name_lt(t[q].0, name@),
            decreases table@.len() - p,
        {
            p = p + 1;
        }
        proof {
            assert forall|q: int| 0 <= q < t.len() && q != p implies t[q].0 != name@ by {
                if q < p {
                    lemma_name_lt_irreflexive(name@, 0);
                } else if p < table@.len() && t[p as int].0 != name@ {
                    lemma_name_lt_total_from_start(t[p as int].0, name@);
                    assert(name_lt(t[p as int].0, t[q].0));
                    lemma_name_lt_transitive(name@, t[p as int].0, t[q].0, 0);
                    lemma_name_lt_irreflexive(name@, 0);
                } else if p < table@.len() {
                    assert(name_lt(t[p as int].0, t[q].0));
                    lemma_name_lt_irreflexive(name@, 0);
                }
            }
        }
        if p < table.len() && table[p].0 == name {
            table.set(p, (name, addr));
            proof {
                let t2 = pair_views(table@);
                assert(t2 =~= t.update(p as int, (name@, addr@)));
                assert forall|a: int, b: int| 0 <= a < b < t2.len() implies name_lt(t2[a].0, t2[b].0) by {
                    assert(t2[a].0 == t[a].0 && t2[b].0 == t[b].0);
                }
                assert forall|n: Seq<char>| #[trigger] m2.contains_key(n) implies exists|k: int|
                    0 <= k < t2.len() && t2[k].0 == n by {
                    if n == name@ {
                        assert(t2[p as int].0 == n);
                    } else {
                        let k = choose|k: int| 0 <= k < t.len() && t[k].0 == n;
                        assert(t2[k].0 == n);
                    }
                }
                assert forall|k: int| 0 <= k < t2.len() implies m2.contains_key(#[trigger] t2[k].0) && m2[t2[k].0] == t2[k].1 by {
                    if k != p {
                        assert(t2[k] == t[k]);
                    }
                }
            }
        } else {
            proof {
                if p < table@.len() {
                    lemma_name_lt_total_from_start(t[p as int].0, name@);
                }
            }
            table.insert(p, (name, addr));
            proof {
                let t2 = pair_views(table@);
                assert(t2 =~= t.insert(p as int, (name@, addr@)));
                assert forall|a: int, b: int| 0 <= a < b < t2.len() implies name_lt(t2[a].0, t2[b].0) by {
                    if b == p {
                        assert(t2[a] == t[a]);
                    } else if a == p {
                        assert(t2[b] == t[b - 1]);
                        if b - 1 > p {
                            assert(name_lt(t[p as int].0, t[b - 1].0));
                            lemma_name_lt_transitive(name@, t[p as int].0, t[b - 1].0, 0);
                        }
                    } else if a < p && b > p {
                        assert(t2[a] == t[a]);
                        assert(t2[b] == t[b - 1]);
                        if b - 1 >= p {
                            lemma_name_lt_transitive(t[a].0, name@, t[p as int].0, 0);
                            if b - 1 > p {
                                assert(name_lt(t[p as int].0, t[b - 1].0));
                                lemma_name_lt_transitive(t[a].0, t[p as int].0, t[b - 1].0, 0);
                            }
                        }
                    } else if b < p {
                        assert(t2[a] == t[a] && t2[b] == t[b]);
                    } else {
                        assert(t2[a] == t[a - 1] && t2[b] == t[b - 1]);
                    }
                }
                assert forall|n: Seq<char>| #[trigger] m2.contains_key(n) implies exists|k: int|
                    0 <= k < t2.len() && t2[k].0 == n by {
                    if n == name@ {
                        assert(t2[p as int].0 == n);
                    } else {
                        let k = choose|k: int| 0 <= k < t.len() && t[k].0 == n;
                        if k < p {
                            assert(t2[k].0 == n);
                        } else {
                            assert(t2[k + 1].0 == n);
                        }
                    }
                }
                assert forall|k: int| 0 <= k < t2.len() implies m2.contains_key(#[trigger] t2[k].0) && m2[t2[k].0] == t2[k].1 by {
                    if k < p {
                        assert(t2[k] == t[k]);
                    } else if k > p {
                        assert(t2[k] == t[k - 1]);
                    }
                }
            }
        }
        i = i + 1;
    }
    assert(pair_views(pairs@).subrange(0, i as int) =~= pair_views(pairs@));
    table
}

/// `s` names a Move source file: it ends in `.move`.
pub open spec fn is_move_file(s: Seq<char>) -> bool {
    s.len() >= 5 && s.subrange(s.len() - 5, s.len() as int) == ".move"@
}

/// The entries of `paths` that name Move source files, in their order.
pub open spec fn move_files(paths: Seq<Seq<char>>) -> Seq<Seq<char>>
    decreases paths.len(),
{
    if paths.len() == 0 {
        Seq::empty()
    } else if is_move_file(paths.last()) {
        move_files(paths.drop_last()).push(paths.last())
    } else {
        move_files(paths.drop_last())
    }
}

/// Whether `path` ends in `.move`.
pub fn is_move_path(path: &str) -> (r: bool)
    ensures
        r == is_move_file(path@),
{
    proof {
        reveal_strlit(".move");
    }
    let n = path.unicode_len();
    if n < 5 {
        return false;
    }
    let r = path.get_char(n - 5) == '.' && path.get_char(n - 4) == 'm' && path.get_char(n - 3)
        == 'o' && path.get_char(n - 2) == 'v' && path.get_char(n - 1) == 'e';
    proof {
        let tail = path@.subrange(n - 5, n as int);
        if r {
            assert(tail =~= ".move"@);
        } else {
            if tail == ".move"@ {
                assert(tail[0] == path@[n - 5]);
                assert(tail[1] == path@[n - 4]);
                assert(tail[2] == path@[n - 3]);
                assert(tail[3] == path@[n - 2]);
                assert(tail[4] == path@[n - 1]);
            }
        }
    }
    r
}

/// The dependency paths that are Move source files, in the order given.
pub fn dependency_files(dep_dirs: &Vec<&str>) -> (r: Vec<String>)
    ensures
        r@.map_values(|s: String| s@) == move_files(dep_dirs@.map_values(|s: &str| s@)),
{
    let ghost all = dep_dirs@.map_values(|s: &str| s@);
    let mut out: Vec<String> = Vec::new();
    let mut k: usize = 0;
    while k < dep_dirs.len()
        invariant
            k <= dep_dirs@.len(),
            all == dep_dirs@.map_values(|s: &str| s@),
            out@.map_values(|s: String| s@) == move_files(all.subrange(0, k as int)),
        decreases dep_dirs@.len() - k,
    {
        let ghost front = all.subrange(0, k as int);
        let ghost next = all.subrange(0, k + 1);
        assert(next.drop_last() =~= front);
        assert(next.last() == dep_dirs@[k as int]@);
        let ghost before = out@;
        if is_move_path(dep_dirs[k]) {
            out.push(String::from_str(dep_dirs[k]));
            assert(out@.map_values(|s: String| s@) =~= before.map_values(|s: String| s@).push(
                dep_dirs@[k as int]@,
            ));
        }
        k = k + 1;
    }
    assert(all.subrange(0, k as int) =~= all);
    out
}

} // verus!
