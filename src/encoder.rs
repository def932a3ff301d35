use vstd::prelude::*;
use vstd::arithmetic::div_mod::{lemma_fundamental_div_mod, lemma_fundamental_div_mod_converse};
use crate::color_table::{ColorTable, default_entry, level_of, level_value};
use crate::image::VanGoghImage;
use crate::raw_image::RawImage;

verus! {

/// `x` held to the range of a byte.
pub open spec fn clamp_byte(x: int) -> int {
    if x < 0 {
        0
    } else if x > 255 {
        255
    } else {
        x
    }
}

/// One channel of a block after its pixel `k` (in block order) is chosen:
/// the running average of the chosen values, and the level chosen for pixel `k`.
/// Pixel 0 takes the level nearest its own value `seed`; each later pixel takes
/// the level nearest the value that would bring the running average to `target`.
pub open spec fn channel_step(target: int, seed: int, k: nat) -> (int, int)
    decreases k,
{
    if k == 0 {
        let l = level_of(seed);
        (level_value(l) as int, l)
    } else {
        let n = k as int;
        let run = channel_step(target, seed, (k - 1) as nat).0;
        let l = level_of(clamp_byte(target * (n + 1) - run * n));
        (run * n / (n + 1) + level_value(l) as int / (n + 1), l)
    }
}

/// Position of pixel `k` (row-major within the block) of block `(bi, bj)`
/// in an image of width `w` cut into blocks of side `bs`.
pub open spec fn block_pixel(w: int, bs: int, bi: int, bj: int, k: int) -> int {
    (bi * bs + k / bs) * w + bj * bs + k % bs
}

/// Whether position `p` lies in block `(bi, bj)`.
pub open spec fn in_block(w: int, bs: int, bi: int, bj: int, p: int) -> bool {
    (p / w) / bs == bi && (p % w) / bs == bj
}

/// Order of position `p` within its block.
pub open spec fn order_in_block(w: int, bs: int, p: int) -> int {
    ((p / w) % bs) * bs + (p % w) % bs
}

/// Sum of the first `n` pixels of block `(bi, bj)` of `plane`.
pub open spec fn block_sum(plane: Seq<u8>, w: int, bs: int, bi: int, bj: int, n: nat) -> int
    decreases n,
{
    if n == 0 {
        0
    } else {
        block_sum(plane, w, bs, bi, bj, (n - 1) as nat) + plane[block_pixel(w, bs, bi, bj, n - 1)]
    }
}

/// The level chosen for pixel `k` of block `(bi, bj)` in one channel.
pub open spec fn block_level(plane: Seq<u8>, w: int, bs: int, bi: int, bj: int, k: int) -> int {
    let target = block_sum(plane, w, bs, bi, bj, (bs * bs) as nat) / bs / bs;
    let seed = plane[block_pixel(w, bs, bi, bj, 0)] as int;
    channel_step(target, seed, k as nat).1
}

/// The palette index that encoding `img` with blocks of side `bs` gives
/// position `p`. Pixels outside every full block get index 0.
pub open spec fn encoded_index(img: RawImage, bs: int, p: int) -> int {
    let w = img.width as int;
    let h = img.height as int;
    let bi = (p / w) / bs;
    let bj = (p % w) / bs;
    if bi < h / bs && bj < w / bs {
        let k = order_in_block(w, bs, p);
        block_level(img.red@, w, bs, bi, bj, k) * 25 + block_level(img.green@, w, bs, bi, bj, k) * 5
            + block_level(img.blue@, w, bs, bi, bj, k)
    } else {
        0
    }
}

proof fn lemma_block_pixel(w: int, h: int, bs: int, bi: int, bj: int, k: int)
    requires
        w > 0,
        bs > 0,
        0 <= bi < h / bs,
        0 <= bj < w / bs,
        0 <= k < bs * bs,
    ensures
        0 <= block_pixel(w, bs, bi, bj, k) < w * h,
        block_pixel(w, bs, bi, bj, k) / w == bi * bs + k / bs,
        block_pixel(w, bs, bi, bj, k) % w == bj * bs + k % bs,
        in_block(w, bs, bi, bj, block_pixel(w, bs, bi, bj, k)),
        order_in_block(w, bs, block_pixel(w, bs, bi, bj, k)) == k,
        bi * bs + k / bs < h,
        bs <= h,
        bs <= w,
{
    let kr = k / bs;
    let kc = k % bs;
    lemma_fundamental_div_mod(k, bs);
    assert(0 <= kc < bs);
    assert(0 <= kr < bs) by (nonlinear_arith)
        requires
            k == bs * kr + kc,
            0 <= kc < bs,
            0 <= k < bs * bs,
            bs > 0,
    ;
    let row = bi * bs + kr;
    let col = bj * bs + kc;
    lemma_fundamental_div_mod_converse(row, bs, bi, kr);
    lemma_fundamental_div_mod_converse(col, bs, bj, kc);
    let hb = h / bs;
    let wb = w / bs;
    lemma_fundamental_div_mod(h, bs);
    lemma_fundamental_div_mod(w, bs);
    assert(0 <= row < h && bs <= h) by (nonlinear_arith)
        requires
            row == bi * bs + kr,
            0 <= kr < bs,
            0 <= bi < hb,
            h == bs * hb + h % bs,
            h % bs >= 0,
    ;
    assert(0 <= col < w && bs <= w) by (nonlinear_arith)
        requires
            col == bj * bs + kc,
            0 <= kc < bs,
            0 <= bj < wb,
            w == bs * wb + w % bs,
            w % bs >= 0,
    ;
    let pos = row * w + col;
    assert(pos == block_pixel(w, bs, bi, bj, k));
    lemma_fundamental_div_mod_converse(pos, w, row, col);
    assert(0 <= pos < w * h) by (nonlinear_arith)
        requires
            pos == row * w + col,
            0 <= row < h,
            0 <= col < w,
    ;
}

proof fn lemma_pixel_block(w: int, h: int, bs: int, p: int)
    requires
        w > 0,
        bs > 0,
        0 <= p < w * h,
        (p / w) / bs < h / bs,
        (p % w) / bs < w / bs,
    ensures
        0 <= (p / w) / bs,
        0 <= (p % w) / bs,
        0 <= order_in_block(w, bs, p) < bs * bs,
        block_pixel(w, bs, (p / w) / bs, (p % w) / bs, order_in_block(w, bs, p)) == p,
{
    let row = p / w;
    let col = p % w;
    lemma_fundamental_div_mod(p, w);
    lemma_fundamental_div_mod(row, bs);
    lemma_fundamental_div_mod(col, bs);
    assert(row >= 0) by (nonlinear_arith)
        requires
            p == w * row + col,
            0 <= col < w,
            p >= 0,
    ;
    let k = order_in_block(w, bs, p);
    let rr = row % bs;
    let cc = col % bs;
    assert(0 <= k < bs * bs) by (nonlinear_arith)
        requires
            k == rr * bs + cc,
            0 <= rr < bs,
            0 <= cc < bs,
    ;
    lemma_fundamental_div_mod_converse(k, bs, rr, cc);
    assert(row == (row / bs) * bs + rr) by (nonlinear_arith)
        requires
            row == bs * (row / bs) + rr,
    ;
    assert(col == (col / bs) * bs + cc) by (nonlinear_arith)
        requires
            col == bs * (col / bs) + cc,
    ;
    assert(p == row * w + col) by (nonlinear_arith)
        requires
            p == w * row + col,
    ;
}

/// `x / d` is at most `m` when `x` is at most `m * d`.
proof fn lemma_div_at_most(x: int, d: int, m: int)
    requires
        0 <= x <= m * d,
        d > 0,
    ensures
        0 <= x / d <= m,
{
    lemma_fundamental_div_mod(x, d);
    let q = x / d;
    assert(0 <= q <= m) by (nonlinear_arith)
        requires
            x == d * q + x % d,
            0 <= x % d < d,
            0 <= x <= m * d,
            d > 0,
    ;
}

/// A palette index split back into its three levels.
proof fn lemma_index_levels(lr: int, lg: int, lb: int)
    requires
        0 <= lr < 5,
        0 <= lg < 5,
        0 <= lb < 5,
    ensures
        (lr * 25 + lg * 5 + lb) / 25 == lr,
        ((lr * 25 + lg * 5 + lb) / 5) % 5 == lg,
        (lr * 25 + lg * 5 + lb) % 5 == lb,
{
    let x = lr * 25 + lg * 5 + lb;
    lemma_fundamental_div_mod_converse(x, 25, lr, lg * 5 + lb);
    lemma_fundamental_div_mod_converse(x, 5, lr * 5 + lg, lb);
    lemma_fundamental_div_mod_converse(lr * 5 + lg, 5, lr, lg);
}

/// The value that would bring the running average `run` of `denom` pixels
/// to `target` once one more pixel is added, held to a byte.
fn adjusted(target: u128, run: u128, denom: u128) -> (r: u8)
    requires
        target <= 255,
        run <= 255,
        denom <= usize::MAX,
    ensures
        r as int == clamp_byte(target * (denom + 1) - run * denom),
{
    assert(target * (denom + 1) <= 255 * (usize::MAX + 1)) by (nonlinear_arith)
        requires
            target <= 255,
            denom <= usize::MAX,
    ;
    assert(run * denom <= 255 * usize::MAX) by (nonlinear_arith)
        requires
            run <= 255,
            denom <= usize::MAX,
    ;
    let want = target * (denom + 1);
    let have = run * denom;
    let a = if want > have {
        want - have
    } else {
        0
    };
    if a > 255 {
        255
    } else {
        a as u8
    }
}

/// The running average of `denom` pixels once `value` is added:
/// the two quotients are truncated one by one.
fn next_average(run: u128, value: u8, denom: u128) -> (r: u128)
    requires
        run <= 255,
        1 <= denom <= usize::MAX,
    ensures
        r == run * denom / (denom + 1) + value as int / (denom + 1),
        r <= 255,
{
    assert(run * denom <= 255 * usize::MAX) by (nonlinear_arith)
        requires
            run <= 255,
            denom <= usize::MAX,
    ;
    let a = run * denom / (denom + 1);
    let b = value as u128 / (denom + 1);
    proof {
        let x: int = run * denom;
        let v: int = value as int;
        let d: int = denom + 1;
        lemma_fundamental_div_mod(x, d);
        lemma_fundamental_div_mod(v, d);
        let qa = x / d;
        let qb = v / d;
        assert(qa + qb <= 255) by (nonlinear_arith)
            requires
                x == d * qa + x % d,
                v == d * qb + v % d,
                x % d >= 0,
                v % d >= 0,
                x == run * denom,
                run <= 255,
                v <= 255,
                d == denom + 1,
                denom >= 1,
        ;
    }
    a + b
}

/// Quantizes block `(bi, bj)` of `img` into `data`, leaving every other
/// position as it was.
fn encode_block(img: &RawImage, table: &ColorTable, bs: usize, bi: usize, bj: usize, data: &mut Vec<u8>)
    requires
        img.wf(),
        table.is_default(),
        bs > 0,
        bi < img.height as int / bs as int,
        bj < img.width as int / bs as int,
        old(data)@.len() == img.width * img.height,
    ensures
        final(data)@.len() == old(data)@.len(),
        forall|p: int|
            0 <= p < old(data)@.len() ==> #[trigger] final(data)@[p] as int == if in_block(
                img.width as int,
                bs as int,
                bi as int,
                bj as int,
                p,
            ) {
                encoded_index(*img, bs as int, p)
            } else {
                old(data)@[p] as int
            },
{
    let w = img.width as usize;
    let h = img.height as usize;
    let total = data.len();
    let ghost n = data@.len();
    proof {
        assert(0 < bs * bs) by (nonlinear_arith)
            requires
                bs > 0,
        ;
        lemma_block_pixel(w as int, h as int, bs as int, bi as int, bj as int, 0);
        assert(bs * bs <= w * h) by (nonlinear_arith)
            requires
                0 < bs <= w,
                bs <= h,
        ;
    }
    let area = bs * bs;
    let mut sr: u128 = 0;
    let mut sg: u128 = 0;
    let mut sb: u128 = 0;
    let mut k: usize = 0;
    while k < area
        invariant
            img.wf(),
            w == img.width,
            h == img.height,
            area == bs * bs,
            bs > 0,
            bi < h / bs,
            bj < w / bs,
            area <= w * h <= usize::MAX,
            k <= area,
            sr == block_sum(img.red@, w as int, bs as int, bi as int, bj as int, k as nat),
            sg == block_sum(img.green@, w as int, bs as int, bi as int, bj as int, k as nat),
            sb == block_sum(img.blue@, w as int, bs as int, bi as int, bj as int, k as nat),
            sr <= 255 * k,
            sg <= 255 * k,
            sb <= 255 * k,
        decreases area - k,
    {
        proof {
            lemma_block_pixel(w as int, h as int, bs as int, bi as int, bj as int, k as int);
        }
        let pos = (bi * bs + k / bs) * w + bj * bs + k % bs;
        sr = sr + img.red[pos] as u128;
        sg = sg + img.green[pos] as u128;
        sb = sb + img.blue[pos] as u128;
        k += 1;
    }
    proof {
        assert(255 * area == (255 * bs) * bs) by (nonlinear_arith)
            requires
                area == bs * bs,
        ;
        lemma_div_at_most(sr as int, bs as int, 255 * bs);
        lemma_div_at_most(sr as int / bs as int, bs as int, 255);
        lemma_div_at_most(sg as int, bs as int, 255 * bs);
        lemma_div_at_most(sg as int / bs as int, bs as int, 255);
        lemma_div_at_most(sb as int, bs as int, 255 * bs);
        lemma_div_at_most(sb as int / bs as int, bs as int, 255);
    }
    let tr = sr / bs as u128 / bs as u128;
    let tg = sg / bs as u128 / bs as u128;
    let tb = sb / bs as u128 / bs as u128;
    let ghost seed_r = img.red@[block_pixel(w as int, bs as int, bi as int, bj as int, 0)] as int;
    let ghost seed_g = img.green@[block_pixel(w as int, bs as int, bi as int, bj as int, 0)] as int;
    let ghost seed_b = img.blue@[block_pixel(w as int, bs as int, bi as int, bj as int, 0)] as int;

    // the first pixel takes the palette color nearest its own
    let origin = (bi * bs) * w + bj * bs;
    assert(origin == block_pixel(w as int, bs as int, bi as int, bj as int, 0));
    let idx = table.find_index_nearest(img.red[origin], img.green[origin], img.blue[origin]);
    data.set(origin, idx);
    let ghost lr = level_of(seed_r);
    let ghost lg = level_of(seed_g);
    let ghost lb = level_of(seed_b);
    proof {
        lemma_index_levels(lr, lg, lb);
        assert(table.0@[idx as int]@ == default_entry(idx as int));
    }
    let c = table.entry(idx as usize);
    let mut rr: u128 = c[0] as u128;
    let mut rg: u128 = c[1] as u128;
    let mut rb: u128 = c[2] as u128;
    proof {
        assert forall|p: int| 0 <= p < n implies #[trigger] data@[p] as int == if in_block(
            w as int,
            bs as int,
            bi as int,
            bj as int,
            p,
        ) && order_in_block(w as int, bs as int, p) < 1 {
            encoded_index(*img, bs as int, p)
        } else {
            old(data)@[p] as int
        } by {
            if in_block(w as int, bs as int, bi as int, bj as int, p) && order_in_block(
                w as int,
                bs as int,
                p,
            ) < 1 {
                lemma_pixel_block(w as int, h as int, bs as int, p);
            }
        }
    }

    // each later pixel corrects the running average toward the block's own
    let mut k: usize = 1;
    while k < area
        invariant
            img.wf(),
            table.is_default(),
            w == img.width,
            h == img.height,
            area == bs * bs,
            bs > 0,
            bi < h / bs,
            bj < w / bs,
            area <= w * h <= usize::MAX,
            1 <= k <= area,
            n == old(data)@.len(),
            data@.len() == n,
            n == w * h,
            tr == block_sum(img.red@, w as int, bs as int, bi as int, bj as int, (bs * bs) as nat) / bs as int / bs as int,
            tg == block_sum(img.green@, w as int, bs as int, bi as int, bj as int, (bs * bs) as nat) / bs as int / bs as int,
            tb == block_sum(img.blue@, w as int, bs as int, bi as int, bj as int, (bs * bs) as nat) / bs as int / bs as int,
            tr <= 255,
            tg <= 255,
            tb <= 255,
            seed_r == img.red@[block_pixel(w as int, bs as int, bi as int, bj as int, 0)] as int,
            seed_g == img.green@[block_pixel(w as int, bs as int, bi as int, bj as int, 0)] as int,
            seed_b == img.blue@[block_pixel(w as int, bs as int, bi as int, bj as int, 0)] as int,
            rr == channel_step(tr as int, seed_r, (k - 1) as nat).0,
            rg == channel_step(tg as int, seed_g, (k - 1) as nat).0,
            rb == channel_step(tb as int, seed_b, (k - 1) as nat).0,
            rr <= 255,
            rg <= 255,
            rb <= 255,
            forall|p: int|
                0 <= p < n ==> #[trigger] data@[p] as int == if in_block(
                    w as int,
                    bs as int,
                    bi as int,
                    bj as int,
                    p,
                ) && order_in_block(w as int, bs as int, p) < k {
                    encoded_index(*img, bs as int, p)
                } else {
                    old(data)@[p] as int
                },
        decreases area - k,
    {
        proof {
            lemma_block_pixel(w as int, h as int, bs as int, bi as int, bj as int, k as int);
        }
        let pos = (bi * bs + k / bs) * w + bj * bs + k % bs;
        let ar = adjusted(tr, rr, k as u128);
        let ag = adjusted(tg, rg, k as u128);
        let ab = adjusted(tb, rb, k as u128);
        let idx = table.find_index_nearest(ar, ag, ab);
        let ghost old_data = data@;
        data.set(pos, idx);
        let ghost lr = level_of(ar as int);
        let ghost lg = level_of(ag as int);
        let ghost lb = level_of(ab as int);
        proof {
            lemma_index_levels(lr, lg, lb);
            assert(table.0@[idx as int]@ == default_entry(idx as int));
            assert(lr == channel_step(tr as int, seed_r, k as nat).1);
            assert(lg == channel_step(tg as int, seed_g, k as nat).1);
            assert(lb == channel_step(tb as int, seed_b, k as nat).1);
            assert(data@[pos as int] == encoded_index(*img, bs as int, pos as int));
            assert forall|p: int| 0 <= p < n implies #[trigger] data@[p] as int == if in_block(
                w as int,
                bs as int,
                bi as int,
                bj as int,
                p,
            ) && order_in_block(w as int, bs as int, p) < k + 1 {
                encoded_index(*img, bs as int, p)
            } else {
                old(data)@[p] as int
            } by {
                if p != pos && in_block(w as int, bs as int, bi as int, bj as int, p) {
                    lemma_pixel_block(w as int, h as int, bs as int, p);
                    assert(order_in_block(w as int, bs as int, p) != k);
                    assert(old_data[p] == data@[p]);
                }
            }
        }
        let c = table.entry(idx as usize);
        rr = next_average(rr, c[0], k as u128);
        rg = next_average(rg, c[1], k as u128);
        rb = next_average(rb, c[2], k as u128);
        k += 1;
    }
    proof {
        assert forall|p: int|
            0 <= p < n && in_block(w as int, bs as int, bi as int, bj as int, p) implies order_in_block(
            w as int,
            bs as int,
            p,
        ) < area by {
            lemma_pixel_block(w as int, h as int, bs as int, p);
        }
    }
}

/// Sum of the palette values chosen, in one channel, for the first `n`
/// pixels of a block whose pixels all hold `c`.
pub open spec fn uniform_block_sum(c: int, n: nat) -> int
    decreases n,
{
    if n == 0 {
        0
    } else {
        uniform_block_sum(c, (n - 1) as nat) + level_value(channel_step(c, c, (n - 1) as nat).1) as int
    }
}

proof fn lemma_level_close(c: int)
    requires
        0 <= c <= 255,
    ensures
        c - 32 <= level_value(level_of(c)) <= c + 32,
        0 <= level_of(c) <= 4,
{
}

/// The running average of a channel stays a byte value.
proof fn lemma_running_average_bound(target: int, seed: int, k: nat)
    requires
        0 <= seed <= 255,
    ensures
        0 <= channel_step(target, seed, k).0 <= 255,
        0 <= channel_step(target, seed, k).1 <= 4,
    decreases k,
{
    if k > 0 {
        lemma_running_average_bound(target, seed, (k - 1) as nat);
        let n = k as int;
        let run = channel_step(target, seed, (k - 1) as nat).0;
        let l = channel_step(target, seed, k).1;
        let v = level_value(l) as int;
        lemma_level_close(clamp_byte(target * (n + 1) - run * n));
        let x = run * n;
        let d = n + 1;
        lemma_fundamental_div_mod(x, d);
        lemma_fundamental_div_mod(v, d);
        let qa = x / d;
        let qb = v / d;
        assert(0 <= qa + qb <= 255) by (nonlinear_arith)
            requires
                x == d * qa + x % d,
                v == d * qb + v % d,
                0 <= x % d < d,
                0 <= v % d < d,
                x == run * n,
                0 <= run <= 255,
                0 <= v <= 255,
                d == n + 1,
                n >= 1,
        ;
    } else {
        lemma_level_close(seed);
    }
}

#[verifier::rlimit(100)]
proof fn lemma_uniform_channel_average(c: u8, bs: int)
    requires
        1 <= bs <= 3,
    ensures
        c * bs * bs - 64 * bs * bs <= uniform_block_sum(c as int, (bs * bs) as nat) <= c * bs * bs + 64 * bs * bs,
{
    lemma_level_close(c as int);
    reveal_with_fuel(uniform_block_sum, 10);
    reveal_with_fuel(channel_step, 10);
    if bs >= 2 {
        let c = c as int;
        let r0 = channel_step(c, c, 0).0;
        let a1 = clamp_byte(c * 2 - r0);
        lemma_level_close(a1);
        let r1 = channel_step(c, c, 1).0;
        lemma_running_average_bound(c, c, 1);
        let a2 = clamp_byte(c * 3 - r1 * 2);
        lemma_level_close(a2);
        let r2 = channel_step(c, c, 2).0;
        let a3 = clamp_byte(c * 4 - r2 * 3);
        lemma_level_close(a3);
        if bs == 3 {
            let r3 = channel_step(c, c, 3).0;
            lemma_running_average_bound(c, c, 3);
            lemma_level_close(clamp_byte(c * 5 - r3 * 4));
            let r4 = channel_step(c, c, 4).0;
            lemma_running_average_bound(c, c, 4);
            lemma_level_close(clamp_byte(c * 6 - r4 * 5));
            let r5 = channel_step(c, c, 5).0;
            lemma_running_average_bound(c, c, 5);
            lemma_level_close(clamp_byte(c * 7 - r5 * 6));
            let r6 = channel_step(c, c, 6).0;
            lemma_running_average_bound(c, c, 6);
            lemma_level_close(clamp_byte(c * 8 - r6 * 7));
            let r7 = channel_step(c, c, 7).0;
            lemma_running_average_bound(c, c, 7);
            lemma_level_close(clamp_byte(c * 9 - r7 * 8));
        }
    }
}

/// Sum of the palette values chosen, in one channel, for the first `n`
/// pixels of block `(bi, bj)`.
pub open spec fn block_value_sum(plane: Seq<u8>, w: int, bs: int, bi: int, bj: int, n: nat) -> int
    decreases n,
{
    if n == 0 {
        0
    } else {
        block_value_sum(plane, w, bs, bi, bj, (n - 1) as nat) + level_value(
            block_level(plane, w, bs, bi, bj, n - 1),
        ) as int
    }
}

proof fn lemma_uniform_sums(plane: Seq<u8>, w: int, bs: int, bi: int, bj: int, c: u8, n: nat)
    requires
        n <= bs * bs,
        forall|k: int| 0 <= k < bs * bs ==> #[trigger] plane[block_pixel(w, bs, bi, bj, k)] == c,
        block_sum(plane, w, bs, bi, bj, (bs * bs) as nat) / bs / bs == c,
    ensures
        block_value_sum(plane, w, bs, bi, bj, n) == uniform_block_sum(c as int, n),
    decreases n,
{
    if n > 0 {
        lemma_uniform_sums(plane, w, bs, bi, bj, c, (n - 1) as nat);
        assert(plane[block_pixel(w, bs, bi, bj, 0)] == c);
    }
}

/// In one channel, a block of side 1, 2 or 3 whose pixels all hold `c` is
/// encoded with values whose average is within one palette step (64) of `c`.
///
/// The bound does not hold for every block size: the running average is
/// truncated twice at each step, the loss grows with the block, and later
/// pixels are pushed to brighter colors to make it up. A block of side 10
/// whose pixels all hold 3 is shown with an average of 71.6, more than one
/// step away.
/// Sides 4 to 9 keep the bound on every value (the tests run them all), but
/// the case analysis for them is beyond what is proved here.
pub proof fn lemma_uniform_block_average(plane: Seq<u8>, w: int, h: int, bs: int, bi: int, bj: int, c: u8)
    requires
        w > 0,
        1 <= bs <= 3,
        0 <= bi < h / bs,
        0 <= bj < w / bs,
        plane.len() == w * h,
        forall|k: int| 0 <= k < bs * bs ==> #[trigger] plane[block_pixel(w, bs, bi, bj, k)] == c,
    ensures
        c * bs * bs - 64 * bs * bs <= block_value_sum(plane, w, bs, bi, bj, (bs * bs) as nat) <= c * bs * bs
            + 64 * bs * bs,
{
    let n = bs * bs;
    assert(n > 0) by (nonlinear_arith)
        requires
            n == bs * bs,
            bs >= 1,
    ;
    lemma_sum_of_constant(plane, w, bs, bi, bj, c, n as nat);
    assert(c * n == (c * bs) * bs) by (nonlinear_arith)
        requires
            n == bs * bs,
    ;
    lemma_fundamental_div_mod_converse(c * n, bs, c * bs, 0);
    lemma_fundamental_div_mod_converse(c * bs, bs, c as int, 0);
    lemma_uniform_sums(plane, w, bs, bi, bj, c, n as nat);
    lemma_uniform_channel_average(c, bs);
}

proof fn lemma_sum_of_constant(plane: Seq<u8>, w: int, bs: int, bi: int, bj: int, c: u8, n: nat)
    requires
        n <= bs * bs,
        forall|k: int| 0 <= k < bs * bs ==> #[trigger] plane[block_pixel(w, bs, bi, bj, k)] == c,
    ensures
        block_sum(plane, w, bs, bi, bj, n) == c * n,
    decreases n,
{
    if n > 0 {
        lemma_sum_of_constant(plane, w, bs, bi, bj, c, (n - 1) as nat);
        assert(plane[block_pixel(w, bs, bi, bj, n - 1)] == c);
        assert(c * (n - 1) + c == c * n) by (nonlinear_arith);
    } else {
        assert(c * n == 0) by (nonlinear_arith)
            requires
                n == 0,
        ;
    }
}

/// The configuration of an encoder: the side of its square blocks.
pub struct VanGoghEncoder {
    pub block_size: usize,
}

/// Whether `r` is what encoding `img` with blocks of side `bs` gives: the
/// same dimensions, the generated palette, and the index of every pixel.
pub open spec fn encodes_to(img: RawImage, bs: int, r: VanGoghImage) -> bool {
    &&& r.wf()
    &&& r.width == img.width
    &&& r.height == img.height
    &&& r.color_table.is_default()
    &&& forall|p: int| 0 <= p < r.data@.len() ==> #[trigger] r.data@[p] as int == encoded_index(img, bs, p)
}

/// Whether position `p` lies in a block at or before `(bi, bj)` in block
/// order, `(bi, bj)` itself excluded.
pub open spec fn block_done(w: int, h: int, bs: int, bi: int, bj: int, p: int) -> bool {
    &&& (p / w) / bs < h / bs
    &&& (p % w) / bs < w / bs
    &&& ((p / w) / bs < bi || ((p / w) / bs == bi && (p % w) / bs < bj))
}

impl VanGoghEncoder {
    /// Blocks are never empty.
    pub open spec fn wf(&self) -> bool {
        self.block_size > 0
    }

    /// An encoder with blocks of side 2.
    pub fn new() -> (r: Self)
        ensures
            r.wf(),
            r.block_size == 2,
    {
        VanGoghEncoder { block_size: 2 }
    }

    /// An encoder with blocks of side `block_size`.
    pub fn with_block_size(block_size: usize) -> (r: Self)
        requires
            block_size > 0,
        ensures
            r.wf(),
            r.block_size == block_size,
    {
        VanGoghEncoder { block_size }
    }

    /// The same encoder with blocks of side `block_size`.
    pub fn set_block_size(self, block_size: usize) -> (r: Self)
        requires
            block_size > 0,
        ensures
            r.wf(),
            r.block_size == block_size,
    {
        let mut e = self;
        e.block_size = block_size;
        e
    }

    /// Quantizes `img` onto the generated palette, block by block, so that each
    /// block's average color tracks its true average. Pixels past the last full
    /// block in either direction get index 0.
    pub fn encode(self, img: RawImage) -> (r: VanGoghImage)
        requires
            self.wf(),
            img.wf(),
        ensures
            encodes_to(img, self.block_size as int, r),
    {
        let bs = self.block_size;
        let w = img.width as usize;
        let h = img.height as usize;
        let n = img.red.len();
        let mut data: Vec<u8> = vec![0u8; n];
        let color_table = ColorTable::generate_optimal(&img);
        let rows = h / bs;
        let cols = w / bs;
        let mut bi: usize = 0;
        while bi < rows
            invariant
                img.wf(),
                color_table.is_default(),
                bs > 0,
                w == img.width,
                h == img.height,
                rows == h / bs,
                cols == w / bs,
                n == w * h,
                bi <= rows,
                data@.len() == n,
                forall|p: int|
                    0 <= p < n ==> #[trigger] data@[p] as int == if block_done(
                        w as int,
                        h as int,
                        bs as int,
                        bi as int,
                        0,
                        p,
                    ) {
                        encoded_index(img, bs as int, p)
                    } else {
                        0
                    },
            decreases rows - bi,
        {
            let mut bj: usize = 0;
            while bj < cols
                invariant
                    img.wf(),
                    color_table.is_default(),
                    bs > 0,
                    w == img.width,
                    h == img.height,
                    rows == h / bs,
                    cols == w / bs,
                    n == w * h,
                    bi < rows,
                    bj <= cols,
                    data@.len() == n,
                    forall|p: int|
                        0 <= p < n ==> #[trigger] data@[p] as int == if block_done(
                            w as int,
                            h as int,
                            bs as int,
                            bi as int,
                            bj as int,
                            p,
                        ) {
                            encoded_index(img, bs as int, p)
                        } else {
                            0
                        },
                decreases cols - bj,
            {
                encode_block(&img, &color_table, bs, bi, bj, &mut data);
                bj += 1;
            }
            bi += 1;
        }
        VanGoghImage { color_table, width: img.width, height: img.height, data }
    }
}

} // verus!
