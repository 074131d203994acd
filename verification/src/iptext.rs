//! Text form of IP addresses, as bytes: dotted decimal for IPv4; for IPv6 lowercase hex
//! groups separated by `:`, the first longest run of two or more zero groups written
//! `::`, and IPv4-mapped addresses written `::ffff:a.b.c.d`.
use crate::addr::IpAddress;
use vstd::prelude::*;

verus! {

pub open spec fn dec_digit(d: nat) -> u8 {
    (48 + d) as u8
}

pub open spec fn hex_digit(d: nat) -> u8 {
    if d < 10 {
        (48 + d) as u8
    } else {
        (87 + d) as u8
    }
}

/// Decimal digits of `x`, without leading zeros.
pub open spec fn dec_text(x: nat) -> Seq<u8>
    decreases x,
{
    if x < 10 {
        seq![dec_digit(x)]
    } else {
        dec_text(x / 10) + seq![dec_digit(x % 10)]
    }
}

/// Lowercase hexadecimal digits of `x`, without leading zeros.
pub open spec fn hex_text(x: nat) -> Seq<u8>
    decreases x,
{
    if x < 16 {
        seq![hex_digit(x)]
    } else {
        hex_text(x / 16) + seq![hex_digit(x % 16)]
    }
}

/// Octet `i` (0 = most significant) of an IPv4 address.
pub open spec fn octet(a: u32, i: int) -> u32 {
    (a >> (24 - 8 * i) as u32) & 0xff
}

pub open spec fn ipv4_text(a: u32) -> Seq<u8> {
    dec_text(octet(a, 0) as nat) + seq![46u8] + dec_text(octet(a, 1) as nat) + seq![46u8] + dec_text(
        octet(a, 2) as nat,
    ) + seq![46u8] + dec_text(octet(a, 3) as nat)
}

/// The eight 16-bit groups of an IPv6 address, most significant first.
pub open spec fn groups(a: u128) -> Seq<u16> {
    Seq::new(8, |i: int| ((a >> (112 - 16 * i) as u128) & 0xffff) as u16)
}

/// Number of consecutive zero groups starting at `i`.
pub open spec fn zero_run(s: Seq<u16>, i: int) -> int
    decreases s.len() - i,
{
    if i < 0 || i >= s.len() || s[i] != 0 {
        0
    } else {
        1 + zero_run(s, i + 1)
    }
}

/// `start` begins the first longest run of zero groups, of length `len`.
pub open spec fn is_first_longest_run(s: Seq<u16>, start: int, len: int) -> bool {
    &&& 0 <= start < s.len()
    &&& zero_run(s, start) == len
    &&& forall|j: int| 0 <= j < s.len() ==> #[trigger] zero_run(s, j) <= len
    &&& forall|j: int| 0 <= j < start ==> #[trigger] zero_run(s, j) < len
}

/// Groups in hex, separated by `:`.
pub open spec fn join_groups(s: Seq<u16>) -> Seq<u8>
    decreases s.len(),
{
    if s.len() == 0 {
        Seq::empty()
    } else if s.len() == 1 {
        hex_text(s[0] as nat)
    } else {
        hex_text(s[0] as nat) + seq![58u8] + join_groups(s.drop_first())
    }
}

pub open spec fn is_ipv4_mapped(g: Seq<u16>) -> bool {
    g[0] == 0 && g[1] == 0 && g[2] == 0 && g[3] == 0 && g[4] == 0 && g[5] == 0xffff
}

pub open spec fn ipv6_text(a: u128) -> Seq<u8> {
    let g = groups(a);
    if is_ipv4_mapped(g) {
        seq![58u8, 58, 102, 102, 102, 102, 58] + ipv4_text(((g[6] as u32) * 0x10000 + g[7] as u32) as u32)
    } else {
        let (start, len) = choose|start: int, len: int| is_first_longest_run(g, start, len);
        if len > 1 {
            join_groups(g.take(start)) + seq![58u8, 58] + join_groups(g.skip(start + len))
        } else {
            join_groups(g)
        }
    }
}

/// The text of an IP address, as `Display` writes it.
pub open spec fn ip_text(ip: IpAddress) -> Seq<u8> {
    match ip {
        IpAddress::V4(a) => ipv4_text(a),
        IpAddress::V6(a) => ipv6_text(a),
    }
}

pub(crate) fn push_dec(out: &mut Vec<u8>, x: u32)
    ensures
        final(out)@ == old(out)@ + dec_text(x as nat),
    decreases x,
{
    if x >= 10 {
        push_dec(out, x / 10);
    }
    out.push((48 + x % 10) as u8);
    assert(out@ =~= old(out)@ + dec_text(x as nat));
}

fn push_hex(out: &mut Vec<u8>, x: u16)
    ensures
        final(out)@ == old(out)@ + hex_text(x as nat),
    decreases x,
{
    if x >= 16 {
        push_hex(out, x / 16);
    }
    let d = x % 16;
    if d < 10 {
        out.push((48 + d) as u8);
    } else {
        out.push((87 + d) as u8);
    }
    assert(out@ =~= old(out)@ + hex_text(x as nat));
}

fn push_ipv4(out: &mut Vec<u8>, a: u32)
    ensures
        final(out)@ == old(out)@ + ipv4_text(a),
{
    push_dec(out, (a >> 24u32) & 0xff);
    out.push(46);
    push_dec(out, (a >> 16u32) & 0xff);
    out.push(46);
    push_dec(out, (a >> 8u32) & 0xff);
    out.push(46);
    push_dec(out, a & 0xff);
    assert(a >> 0u32 == a) by (bit_vector);
    assert(out@ =~= old(out)@ + ipv4_text(a));
}

proof fn lemma_join_push(s: Seq<u16>, x: u16)
    ensures
        join_groups(s.push(x)) == (if s.len() == 0 {
            hex_text(x as nat)
        } else {
            join_groups(s) + seq![58u8] + hex_text(x as nat)
        }),
    decreases s.len(),
{
    if s.len() == 0 {
        assert(s.push(x).len() == 1);
        assert(s.push(x)[0] == x);
    } else if s.len() == 1 {
        assert(s.push(x).drop_first() =~= seq![x]);
        assert(join_groups(seq![x]) == hex_text(x as nat));
    } else {
        lemma_join_push(s.drop_first(), x);
        assert(s.push(x).drop_first() =~= s.drop_first().push(x));
        assert(join_groups(s.push(x)) =~= join_groups(s) + seq![58u8] + hex_text(x as nat));
    }
}

/// Append the groups `g[from..to]` joined by `:`.
fn push_groups(out: &mut Vec<u8>, g: &Vec<u16>, from: usize, to: usize)
    requires
        from <= to <= g@.len(),
    ensures
        final(out)@ == old(out)@ + join_groups(g@.subrange(from as int, to as int)),
{
    let mut i = from;
    while i < to
        invariant
            from <= i <= to <= g@.len(),
            out@ == old(out)@ + join_groups(g@.subrange(from as int, i as int)),
        decreases to - i,
    {
        proof {
            lemma_join_push(g@.subrange(from as int, i as int), g@[i as int]);
            assert(g@.subrange(from as int, i + 1) =~= g@.subrange(from as int, i as int).push(g@[i as int]));
        }
        if i > from {
            out.push(58);
        }
        push_hex(out, g[i]);
        i = i + 1;
        assert(out@ =~= old(out)@ + join_groups(g@.subrange(from as int, i as int)));
    }
}

proof fn lemma_zero_run_bound(s: Seq<u16>, i: int)
    ensures
        0 <= zero_run(s, i),
        0 <= i <= s.len() ==> zero_run(s, i) <= s.len() - i,
    decreases s.len() - i,
{
    if 0 <= i < s.len() && s[i] == 0 {
        lemma_zero_run_bound(s, i + 1);
    }
}

/// The first longest run of zero groups of `g`: its start and length.
fn first_longest_zero_run(g: &Vec<u16>) -> (r: (usize, usize))
    requires
        g@.len() == 8,
    ensures
        is_first_longest_run(g@, r.0 as int, r.1 as int),
{
    let mut best_start: usize = 0;
    let mut best_len: usize = 0;
    let mut cur_len: usize = 0;
    let mut i: usize = 8;
    // scan from the back so that the run starting at each position is known
    let mut runs: Vec<usize> = vec![0usize; 8];
    while i > 0
        invariant
            i <= 8,
            g@.len() == 8,
            runs@.len() == 8,
            cur_len as int == zero_run(g@, i as int),
            forall|j: int| i <= j < 8 ==> runs@[j] as int == zero_run(g@, j),
        decreases i,
    {
        i = i - 1;
        proof {
            lemma_zero_run_bound(g@, i as int + 1);
        }
        if g[i] == 0 {
            cur_len = cur_len + 1;
        } else {
            cur_len = 0;
        }
        runs.set(i, cur_len);
    }
    let mut k: usize = 0;
    while k < 8
        invariant
            k <= 8,
            g@.len() == 8,
            runs@.len() == 8,
            forall|j: int| 0 <= j < 8 ==> runs@[j] as int == zero_run(g@, j),
            best_start < 8,
            k == 0 ==> best_start == 0 && best_len == 0,
            k > 0 ==> best_start < k && zero_run(g@, best_start as int) == best_len,
            forall|j: int| 0 <= j < k ==> #[trigger] zero_run(g@, j) <= best_len,
            forall|j: int| 0 <= j < best_start ==> #[trigger] zero_run(g@, j) < best_len,
        decreases 8 - k,
    {
        if k == 0 || runs[k] > best_len {
            best_start = k;
            best_len = runs[k];
        }
        k = k + 1;
    }
    assert forall|j: int| 0 <= j < g@.len() implies #[trigger] zero_run(g@, j) <= best_len by {}
    (best_start, best_len)
}

proof fn lemma_first_longest_unique(s: Seq<u16>, a: int, la: int, b: int, lb: int)
    requires
        is_first_longest_run(s, a, la),
        is_first_longest_run(s, b, lb),
    ensures
        a == b && la == lb,
{
    assert(zero_run(s, a) <= lb);
    assert(zero_run(s, b) <= la);
    if a < b {
        assert(zero_run(s, a) < lb);
    }
    if b < a {
        assert(zero_run(s, b) < la);
    }
}

fn ipv6_groups(a: u128) -> (r: Vec<u16>)
    ensures
        r@ == groups(a),
{
    let mut g: Vec<u16> = Vec::new();
    let mut i: u32 = 0;
    while i < 8
        invariant
            i <= 8,
            g@.len() == i,
            forall|j: int| 0 <= j < i ==> g@[j] == groups(a)[j],
        decreases 8 - i,
    {
        let shift: u32 = 112 - 16 * i;
        g.push(((a >> shift) & 0xffff) as u16);
        i = i + 1;
    }
    assert(g@ =~= groups(a));
    g
}

/// Append the text of an IP address.
pub fn push_ip_text(out: &mut Vec<u8>, ip: &IpAddress)
    ensures
        final(out)@ == old(out)@ + ip_text(*ip),
{
    match ip {
        IpAddress::V4(a) => push_ipv4(out, *a),
        IpAddress::V6(a) => {
            let g = ipv6_groups(*a);
            if g[0] == 0 && g[1] == 0 && g[2] == 0 && g[3] == 0 && g[4] == 0 && g[5] == 0xffff {
                out.push(58);
                out.push(58);
                out.push(102);
                out.push(102);
                out.push(102);
                out.push(102);
                out.push(58);
                let v4: u32 = (g[6] as u32) * 0x10000 + g[7] as u32;
                push_ipv4(out, v4);
                assert(out@ =~= old(out)@ + ip_text(*ip));
            } else {
                let (start, len) = first_longest_zero_run(&g);
                proof {
                    let (cs, cl) = choose|start: int, len: int| is_first_longest_run(groups(*a), start, len);
                    lemma_first_longest_unique(groups(*a), start as int, len as int, cs, cl);
                    lemma_zero_run_bound(g@, start as int);
                }
                if len > 1 {
                    push_groups(out, &g, 0, start);
                    out.push(58);
                    out.push(58);
                    push_groups(out, &g, start + len, 8);
                    assert(g@.subrange(0, start as int) =~= g@.take(start as int));
                    assert(g@.subrange((start + len) as int, 8) =~= g@.skip((start + len) as int));
                } else {
                    push_groups(out, &g, 0, 8);
                    assert(g@.subrange(0, 8) =~= g@);
                }
                assert(out@ =~= old(out)@ + ip_text(*ip));
            }
        },
    }
}

/// The text of an IP address, as bytes.
pub fn ip_text_bytes(ip: &IpAddress) -> (r: Vec<u8>)
    ensures
        r@ == ip_text(*ip),
{
    let mut out: Vec<u8> = Vec::new();
    push_ip_text(&mut out, ip);
    assert(out@ =~= ip_text(*ip));
    out
}

} // verus!
