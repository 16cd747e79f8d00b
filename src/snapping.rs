use vstd::prelude::*;

verus! {

/// The denominators of the canonical beat subdivisions, in search order.
pub open spec fn denoms() -> Seq<int> {
    seq![1, 2, 3, 4, 6, 8, 12, 16]
}

/// The first `n` subdivisions `(i, d)` with denominator `d`.
pub open spec fn row(d: int, n: int) -> Seq<(int, int)> {
    Seq::new(n as nat, |i: int| (i, d))
}

/// The subdivisions of the first `j` denominators, denominator by
/// denominator, numerators ascending.
pub open spec fn grid_upto(j: int) -> Seq<(int, int)>
    decreases j,
{
    if j <= 0 {
        seq![]
    } else {
        grid_upto(j - 1) + row(denoms()[j - 1], denoms()[j - 1])
    }
}

/// Every canonical subdivision `(i, d)`, `0 <= i < d`, in search order.
pub open spec fn grid() -> Seq<(int, int)> {
    grid_upto(8)
}

/// Where the point `c.0 / c.1` of measure `k` falls, in milliseconds after
/// the anchor, for measures of `mn / md` milliseconds; rounded toward zero
/// exactly as a relative location is converted. The candidate `(1, 1)`
/// stands for the start of measure `k + 1`.
pub open spec fn pos(mn: int, md: int, k: int, c: (int, int)) -> int {
    (mn * (k * c.1 + c.0)) / (md * c.1)
}

/// How far `delta` lies from the point `c` of measure `k`.
pub open spec fn pos_dist(delta: int, mn: int, md: int, k: int, c: (int, int)) -> int {
    let x = delta - pos(mn, md, k, c);
    if x >= 0 {
        x
    } else {
        -x
    }
}

/// Index of the first candidate of `s` (in measure `k`) nearest to `delta`.
pub open spec fn first_min(s: Seq<(int, int)>, delta: int, mn: int, md: int, k: int) -> int
    decreases s.len(),
{
    if s.len() <= 1 {
        0
    } else {
        let j = first_min(s.drop_last(), delta, mn, md, k);
        if pos_dist(delta, mn, md, k, s.last()) < pos_dist(delta, mn, md, k, s[j]) {
            s.len() - 1
        } else {
            j
        }
    }
}

/// The candidates searched in measure `k`: its canonical subdivisions, then
/// the start of the next measure when that measure still has a number.
pub open spec fn window(k: int) -> Seq<(int, int)> {
    if k < u32::MAX {
        grid().push((1, 1))
    } else {
        grid()
    }
}

/// The first candidate of measure `k` nearest to `delta`.
pub open spec fn nearest(delta: int, mn: int, md: int, k: int) -> (int, int) {
    window(k)[first_min(window(k), delta, mn, md, k)]
}

/// The index that `first_min` picks lies in `s`, and no subdivision of `s`
/// is nearer.
pub proof fn lemma_first_min(s: Seq<(int, int)>, delta: int, mn: int, md: int, k: int)
    requires
        s.len() > 0,
    ensures
        0 <= first_min(s, delta, mn, md, k) < s.len(),
        forall|j: int|
            0 <= j < s.len() ==> pos_dist(delta, mn, md, k, s[first_min(s, delta, mn, md, k)])
                <= #[trigger] pos_dist(delta, mn, md, k, s[j]),
    decreases s.len(),
{
    if s.len() > 1 {
        lemma_first_min(s.drop_last(), delta, mn, md, k);
        assert forall|j: int| 0 <= j < s.len() - 1 implies s[j] == s.drop_last()[j] by {}
    }
}

/// Each denominator of the grid divides 48.
pub proof fn lemma_denom_divides(k: int)
    requires
        0 <= k < 8,
    ensures
        0 < denoms()[k] <= 16,
        48int % denoms()[k] == 0,
{
    let ds = denoms();
    if k == 0 {
        assert(ds[0] == 1);
        assert(48int % 1int == 0);
    } else if k == 1 {
        assert(ds[1] == 2);
        assert(48int % 2int == 0);
    } else if k == 2 {
        assert(ds[2] == 3);
        assert(48int % 3int == 0);
    } else if k == 3 {
        assert(ds[3] == 4);
        assert(48int % 4int == 0);
    } else if k == 4 {
        assert(ds[4] == 6);
        assert(48int % 6int == 0);
    } else if k == 5 {
        assert(ds[5] == 8);
        assert(48int % 8int == 0);
    } else if k == 6 {
        assert(ds[6] == 12);
        assert(48int % 12int == 0);
    } else if k == 7 {
        assert(ds[7] == 16);
        assert(48int % 16int == 0);
    }
}

/// Every subdivision `(i, d)` of the grid has `0 <= i < d` and `d` dividing 48.
pub proof fn lemma_grid_shape(j: int)
    requires
        0 <= j <= 8,
    ensures
        forall|k: int|
            0 <= k < grid_upto(j).len() ==> {
                let c = #[trigger] grid_upto(j)[k];
                0 <= c.0 < c.1 && 48int % c.1 == 0
            },
    decreases j,
{
    if j > 0 {
        lemma_grid_shape(j - 1);
        let d = denoms()[j - 1];
        lemma_denom_divides(j - 1);
        let prev = grid_upto(j - 1);
        assert forall|k: int| 0 <= k < grid_upto(j).len() implies {
            let c = #[trigger] grid_upto(j)[k];
            0 <= c.0 < c.1 && 48int % c.1 == 0
        } by {
            if k < prev.len() {
                assert(grid_upto(j)[k] == prev[k]);
            } else {
                assert(grid_upto(j)[k] == row(d, d)[k - prev.len()]);
            }
        }
    }
}

/// The grid holds the subdivision `(i, denoms()[jj])` for each `i` below
/// that denominator.
pub proof fn lemma_grid_has(j: int, jj: int, i: int)
    requires
        0 <= jj < j <= 8,
        0 <= i < denoms()[jj],
    ensures
        exists|k: int| 0 <= k < grid_upto(j).len() && grid_upto(j)[k] == (i, denoms()[jj]),
    decreases j,
{
    let prev = grid_upto(j - 1);
    if jj == j - 1 {
        let k = prev.len() + i;
        assert(grid_upto(j)[k] == (i, denoms()[jj]));
    } else {
        lemma_grid_has(j - 1, jj, i);
        let k = choose|k: int| 0 <= k < prev.len() && prev[k] == (i, denoms()[jj]);
        assert(grid_upto(j)[k] == prev[k]);
    }
}

/// Bounds under which the search computes in machine integers.
pub open spec fn search_bounds(delta: int, mn: int, md: int, k: int) -> bool {
    0 < mn <= 60000 * u32::MAX * u32::MAX && 0 < md <= u32::MAX && 0 <= delta
        <= 0x1_0000_0000_0000 && 0 <= k <= u32::MAX
}

proof fn lemma_pos_bounds(mn: int, md: int, k: int, i: int, d: int)
    requires
        0 < mn <= 60000 * u32::MAX * u32::MAX,
        0 < md <= u32::MAX,
        0 <= k <= u32::MAX,
        0 <= i <= d,
        0 < d <= 16,
    ensures
        0 <= k * d + i <= u32::MAX * 16 + 16,
        0 <= mn * (k * d + i) <= 60000 * u32::MAX * u32::MAX * (u32::MAX * 16 + 16),
        0 < md * d <= u32::MAX * 16,
        0 <= pos(mn, md, k, (i, d)) <= mn * (k * d + i),
{
    assert(0 <= k * d + i <= u32::MAX * 16 + 16) by (nonlinear_arith)
        requires
            0 <= k <= u32::MAX,
            0 <= i <= d,
            0 < d <= 16,
    ;
    let u = k * d + i;
    assert(0 <= mn * u <= 60000 * u32::MAX * u32::MAX * (u32::MAX * 16 + 16)) by (nonlinear_arith)
        requires
            0 < mn <= 60000 * u32::MAX * u32::MAX,
            0 <= u <= u32::MAX * 16 + 16,
    ;
    assert(0 < md * d <= u32::MAX * 16) by (nonlinear_arith)
        requires
            0 < md <= u32::MAX,
            0 < d <= 16,
    ;
    assert((mn * u) / (md * d) <= mn * u) by (nonlinear_arith)
        requires
            md * d > 0,
            mn * u >= 0,
    ;
}

/// The distance from `delta` to the point `(i, d)` of measure `k`.
fn dist_to(delta: i64, mn: u128, md: u128, k: u128, i: u32, d: u32) -> (r: u128)
    requires
        search_bounds(delta as int, mn as int, md as int, k as int),
        i <= d,
        0 < d <= 16,
    ensures
        r == pos_dist(delta as int, mn as int, md as int, k as int, (i as int, d as int)),
{
    proof {
        lemma_pos_bounds(mn as int, md as int, k as int, i as int, d as int);
        assert(60000 * 0xffff_ffffint * 0xffff_ffffint * (0xffff_ffffint * 16 + 16) <= 0x7fff_ffff_ffff_ffff_ffff_ffff_ffff_ffffint) by (nonlinear_arith);
        assert(mn * (k * d + i) <= 0x7fff_ffff_ffff_ffff_ffff_ffff_ffff_ffff);
    }
    let p: u128 = (mn * (k * (d as u128) + (i as u128))) / (md * (d as u128));
    let x: i128 = delta as i128 - p as i128;
    if x >= 0 {
        x as u128
    } else {
        (-x) as u128
    }
}

/// The candidate of measure `k` nearest to `delta` (the first such in
/// search order), with its distance.
pub fn nearest_snap(delta: i64, mn: u128, md: u128, k: u128) -> (r: (u32, u32, u128))
    requires
        search_bounds(delta as int, mn as int, md as int, k as int),
    ensures
        (r.0 as int, r.1 as int) == nearest(delta as int, mn as int, md as int, k as int),
        r.2 == pos_dist(delta as int, mn as int, md as int, k as int, (r.0 as int, r.1 as int)),
        0 < r.1 <= 16,
        r.0 <= r.1,
        r.0 == r.1 ==> k < u32::MAX,
{
    let ghost (dl, mni, mdi, ki) = (delta as int, mn as int, md as int, k as int);
    let ds: Vec<u32> = vec![1, 2, 3, 4, 6, 8, 12, 16];
    assert(forall|j: int| 0 <= j < 8 ==> ds@[j] as int == #[trigger] denoms()[j]);
    assert(forall|j: int| 0 <= j < 8 ==> 0 < #[trigger] ds@[j] <= 16);
    let mut bi: u32 = 0;
    let mut bd: u32 = 1;
    let mut bdist: u128 = dist_to(delta, mn, md, k, 0, 1);
    let mut j: usize = 0;
    while j < 8
        invariant
            j <= 8,
            ds@.len() == 8,
            forall|j: int| 0 <= j < 8 ==> ds@[j] as int == #[trigger] denoms()[j],
            forall|j: int| 0 <= j < 8 ==> 0 < #[trigger] ds@[j] <= 16,
            search_bounds(dl, mni, mdi, ki),
            dl == delta as int && mni == mn as int && mdi == md as int && ki == k as int,
            grid_upto(j as int).len() > 0 ==> (bi as int, bd as int) == grid_upto(j as int)[first_min(
                grid_upto(j as int),
                dl,
                mni,
                mdi,
                ki,
            )],
            grid_upto(j as int).len() == 0 ==> bi == 0 && bd == 1,
            bdist == pos_dist(dl, mni, mdi, ki, (bi as int, bd as int)),
            0 < bd <= 16,
            bi < bd,
        decreases 8 - j,
    {
        let d: u32 = ds[j];
        let ghost prefix = grid_upto(j as int);
        let mut i: u32 = 0;
        while i < d
            invariant
                j < 8,
                d as int == denoms()[j as int],
                i <= d,
                0 < d <= 16,
                prefix == grid_upto(j as int),
                search_bounds(dl, mni, mdi, ki),
                dl == delta as int && mni == mn as int && mdi == md as int && ki == k as int,
                (prefix + row(d as int, i as int)).len() > 0 ==> (bi as int, bd as int) == (prefix
                    + row(d as int, i as int))[first_min(
                    prefix + row(d as int, i as int),
                    dl,
                    mni,
                    mdi,
                    ki,
                )],
                (prefix + row(d as int, i as int)).len() == 0 ==> bi == 0 && bd == 1,
                bdist == pos_dist(dl, mni, mdi, ki, (bi as int, bd as int)),
                0 < bd <= 16,
                bi < bd,
            decreases d - i,
        {
            let ghost s = prefix + row(d as int, i as int);
            let ghost s2 = prefix + row(d as int, i as int + 1);
            assert(s2 =~= s.push((i as int, d as int)));
            assert(s2.drop_last() =~= s);
            let dist = dist_to(delta, mn, md, k, i, d);
            assert(s2.last() == (i as int, d as int));
            if j > 0 {
                assert(grid_upto(j as int).len() == grid_upto(j as int - 1).len() + denoms()[j - 1]);
            }
            if j == 0 && i == 0 {
                assert(grid_upto(0) =~= seq![]);
                assert(s.len() == 0);
                assert(s2[0] == (0int, 1int));
            } else {
                assert(s.len() > 0);
                let ghost m = first_min(s, dl, mni, mdi, ki);
                proof {
                    lemma_first_min(s, dl, mni, mdi, ki);
                }
                assert(s2[m] == s[m]);
                if dist < bdist {
                    bi = i;
                    bd = d;
                    bdist = dist;
                }
            }
            i = i + 1;
        }
        assert(prefix + row(d as int, d as int) =~= grid_upto(j as int + 1));
        j = j + 1;
    }
    let ghost g = grid();
    assert(g.len() > 0) by {
        assert(g.len() == grid_upto(7).len() + denoms()[7]);
    }
    if k < u32::MAX as u128 {
        let dist = dist_to(delta, mn, md, k, 1, 1);
        let ghost w = window(ki);
        assert(w.drop_last() =~= g);
        proof {
            lemma_first_min(g, dl, mni, mdi, ki);
        }
        if dist < bdist {
            bi = 1;
            bd = 1;
            bdist = dist;
        }
    }
    (bi, bd, bdist)
}

} // verus!
