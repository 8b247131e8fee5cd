//! IPv4 and IPv6 addresses as plain values, with the predicates and the text
//! form that the scanner and the address choice read.
use vstd::prelude::*;

use crate::text::{decimal_text, hex_text, push_all, push_decimal, push_hex};

verus! {

/// An IPv4 address, by its four octets in network order.
#[derive(Debug, Clone, Copy, PartialEq, Eq, Structural)]
pub struct Ipv4Addr(pub u8, pub u8, pub u8, pub u8);

/// An IPv6 address, by its sixteen octets in network order.
#[derive(Debug, Clone, Copy)]
pub struct Ipv6Addr {
    pub octets: [u8; 16],
}

/// An IP address of either family.
#[derive(Debug, Clone, Copy)]
pub enum IpAddress {
    V4(Ipv4Addr),
    V6(Ipv6Addr),
}

impl Ipv4Addr {
    /// `0.0.0.0`.
    pub open spec fn spec_is_unspecified(self) -> bool {
        self.0 == 0 && self.1 == 0 && self.2 == 0 && self.3 == 0
    }

    /// `127.0.0.0/8`.
    pub open spec fn spec_is_loopback(self) -> bool {
        self.0 == 127
    }

    /// `169.254.0.0/16`.
    pub open spec fn spec_is_link_local(self) -> bool {
        self.0 == 169 && self.1 == 254
    }

    /// The address as a 32-bit number, first octet highest.
    pub open spec fn spec_bits(self) -> int {
        self.0 * 16777216 + self.1 * 65536 + self.2 * 256 + self.3
    }

    /// Dotted decimal text, such as `192.168.1.5`.
    pub open spec fn spec_text(self) -> Seq<char> {
        decimal_text(self.0 as nat) + seq!['.'] + decimal_text(self.1 as nat) + seq!['.']
            + decimal_text(self.2 as nat) + seq!['.'] + decimal_text(self.3 as nat)
    }

    pub fn new(a: u8, b: u8, c: u8, d: u8) -> (r: Ipv4Addr)
        ensures
            r == Ipv4Addr(a, b, c, d),
    {
        Ipv4Addr(a, b, c, d)
    }

    pub fn is_unspecified(&self) -> (r: bool)
        ensures
            r == self.spec_is_unspecified(),
    {
        self.0 == 0 && self.1 == 0 && self.2 == 0 && self.3 == 0
    }

    pub fn is_loopback(&self) -> (r: bool)
        ensures
            r == self.spec_is_loopback(),
    {
        self.0 == 127
    }

    pub fn is_link_local(&self) -> (r: bool)
        ensures
            r == self.spec_is_link_local(),
    {
        self.0 == 169 && self.1 == 254
    }

    pub fn to_bits(&self) -> (r: u32)
        ensures
            r == self.spec_bits(),
    {
        (self.0 as u32) * 16777216 + (self.1 as u32) * 65536 + (self.2 as u32) * 256
            + (self.3 as u32)
    }

    /// Appends the dotted decimal text to `out`.
    pub fn push_text(&self, out: &mut Vec<char>)
        ensures
            final(out)@ == old(out)@ + self.spec_text(),
    {
        push_decimal(out, self.0 as u64);
        out.push('.');
        push_decimal(out, self.1 as u64);
        out.push('.');
        push_decimal(out, self.2 as u64);
        out.push('.');
        push_decimal(out, self.3 as u64);
        assert(out@ =~= old(out)@ + self.spec_text());
    }
}

/// The number of zero segments in a row from index `i` on.
pub open spec fn zero_run(segs: Seq<int>, i: int) -> nat
    decreases segs.len() - i,
{
    if 0 <= i < segs.len() && segs[i] == 0 {
        1 + zero_run(segs, i + 1)
    } else {
        0
    }
}

/// The longest run of zero segments that starts before index `n`.
pub open spec fn longest_zero_run(segs: Seq<int>, n: int) -> nat
    decreases n,
{
    if n <= 0 {
        0
    } else {
        let rest = longest_zero_run(segs, n - 1);
        if zero_run(segs, n - 1) > rest {
            zero_run(segs, n - 1)
        } else {
            rest
        }
    }
}

/// The first index from `i` on where a run of `len` zero segments starts
/// (the length of `segs` when there is none).
pub open spec fn first_run_of(segs: Seq<int>, len: nat, i: int) -> int
    decreases segs.len() - i,
{
    if i < 0 || i >= segs.len() {
        segs.len() as int
    } else if zero_run(segs, i) == len {
        i
    } else {
        first_run_of(segs, len, i + 1)
    }
}

/// Segments in lower-case hexadecimal, separated by `:`.
pub open spec fn hex_join(segs: Seq<int>) -> Seq<char>
    decreases segs.len(),
{
    if segs.len() == 0 {
        seq![]
    } else if segs.len() == 1 {
        hex_text(segs[0] as nat)
    } else {
        hex_join(segs.drop_last()) + seq![':'] + hex_text(segs.last() as nat)
    }
}

impl Ipv6Addr {
    /// The `i`-th 16-bit segment.
    pub open spec fn spec_segment(self, i: int) -> int {
        self.octets@[2 * i] * 256 + self.octets@[2 * i + 1]
    }

    /// The eight segments, in order.
    pub open spec fn spec_segments(self) -> Seq<int> {
        Seq::new(8, |i: int| self.spec_segment(i))
    }

    /// `::`.
    pub open spec fn spec_is_unspecified(self) -> bool {
        forall|i: int| 0 <= i < 16 ==> self.octets@[i] == 0
    }

    /// The IPv4 address of an IPv4-mapped address `::ffff:a.b.c.d`.
    pub open spec fn spec_to_ipv4_mapped(self) -> Option<Ipv4Addr> {
        let o = self.octets@;
        if (forall|i: int| 0 <= i < 10 ==> o[i] == 0) && o[10] == 255 && o[11] == 255 {
            Some(Ipv4Addr(o[12], o[13], o[14], o[15]))
        } else {
            None
        }
    }

    /// The text form: `::ffff:` and the dotted IPv4 address for an IPv4-mapped
    /// address; otherwise the segments in hexadecimal, where the first longest
    /// run of two or more zero segments is written `::`.
    pub open spec fn spec_text(self) -> Seq<char> {
        match self.spec_to_ipv4_mapped() {
            Some(v4) => seq![':', ':', 'f', 'f', 'f', 'f', ':'] + v4.spec_text(),
            None => {
                let segs = self.spec_segments();
                let len = longest_zero_run(segs, 8);
                let start = first_run_of(segs, len, 0);
                if len > 1 {
                    hex_join(segs.subrange(0, start)) + seq![':', ':'] + hex_join(
                        segs.subrange(start + len, 8),
                    )
                } else {
                    hex_join(segs)
                }
            },
        }
    }

    /// The address with the eight given segments.
    pub fn new(s0: u16, s1: u16, s2: u16, s3: u16, s4: u16, s5: u16, s6: u16, s7: u16) -> (r:
        Ipv6Addr)
        ensures
            r.spec_segments() == seq![
                s0 as int,
                s1 as int,
                s2 as int,
                s3 as int,
                s4 as int,
                s5 as int,
                s6 as int,
                s7 as int,
            ],
    {
        let r = Ipv6Addr {
            octets: [
                (s0 / 256) as u8,
                (s0 % 256) as u8,
                (s1 / 256) as u8,
                (s1 % 256) as u8,
                (s2 / 256) as u8,
                (s2 % 256) as u8,
                (s3 / 256) as u8,
                (s3 % 256) as u8,
                (s4 / 256) as u8,
                (s4 % 256) as u8,
                (s5 / 256) as u8,
                (s5 % 256) as u8,
                (s6 / 256) as u8,
                (s6 % 256) as u8,
                (s7 / 256) as u8,
                (s7 % 256) as u8,
            ],
        };
        assert(r.spec_segments() =~= seq![
            s0 as int,
            s1 as int,
            s2 as int,
            s3 as int,
            s4 as int,
            s5 as int,
            s6 as int,
            s7 as int,
        ]);
        r
    }

    pub fn segment(&self, i: usize) -> (r: u64)
        requires
            i < 8,
        ensures
            r == self.spec_segment(i as int),
    {
        (self.octets[2 * i] as u64) * 256 + (self.octets[2 * i + 1] as u64)
    }

    pub fn is_unspecified(&self) -> (r: bool)
        ensures
            r == self.spec_is_unspecified(),
    {
        for i in 0..16
            invariant
                forall|j: int| 0 <= j < i ==> self.octets@[j] == 0,
        {
            if self.octets[i] != 0 {
                return false;
            }
        }
        true
    }

    pub fn to_ipv4_mapped(&self) -> (r: Option<Ipv4Addr>)
        ensures
            r == self.spec_to_ipv4_mapped(),
    {
        for i in 0..10
            invariant
                forall|j: int| 0 <= j < i ==> self.octets@[j] == 0,
        {
            if self.octets[i] != 0 {
                return None;
            }
        }
        if self.octets[10] == 255 && self.octets[11] == 255 {
            Some(Ipv4Addr(self.octets[12], self.octets[13], self.octets[14], self.octets[15]))
        } else {
            None
        }
    }

    /// Where the first longest run of zero segments starts, and its length.
    fn longest_zeros(&self) -> (r: (usize, usize))
        ensures
            r.1 == longest_zero_run(self.spec_segments(), 8),
            r.1 > 0 ==> r.0 == first_run_of(self.spec_segments(), r.1 as nat, 0),
            r.0 + r.1 <= 8,
    {
        let ghost segs = self.spec_segments();
        let mut best_start: usize = 0;
        let mut best_len: usize = 0;
        for i in 0..8
            invariant
                segs == self.spec_segments(),
                best_len == longest_zero_run(segs, i as int),
                best_len > 0 ==> best_start < i && zero_run(segs, best_start as int) == best_len,
                best_len > 0 ==> forall|j: int| 0 <= j < best_start ==> zero_run(segs, j) < best_len,
                best_len == 0 ==> forall|j: int| 0 <= j < i ==> zero_run(segs, j) == 0,
                best_start + best_len <= 8,
        {
            let mut len: usize = 0;
            while i + len < 8 && self.segment(i + len) == 0
                invariant
                    segs == self.spec_segments(),
                    i < 8,
                    i + len <= 8,
                    zero_run(segs, i as int) == len + zero_run(segs, i + len),
                decreases 8 - i - len,
            {
                proof {
                    lemma_zero_run_step(segs, i + len);
                }
                len = len + 1;
            }
            proof {
                lemma_zero_run_stop(segs, i + len);
                lemma_longest_bound(segs, i as int);
            }
            if len > best_len {
                proof {
                    lemma_zero_run_fits(segs, i as int);
                    assert forall|j: int| 0 <= j < i implies zero_run(segs, j) < len by {
                        lemma_longest_bound(segs, i as int);
                        assert(zero_run(segs, j) <= longest_zero_run(segs, i as int));
                    }
                }
                best_start = i;
                best_len = len;
            }
        }
        proof {
            if best_len > 0 {
                lemma_first_run_of(segs, best_len as nat, best_start as int, 0);
            }
        }
        (best_start, best_len)
    }

    /// Appends the segments `lo..hi`, in hexadecimal and separated by `:`, to `out`.
    fn push_hex_join(&self, out: &mut Vec<char>, lo: usize, hi: usize)
        requires
            lo <= hi <= 8,
        ensures
            final(out)@ == old(out)@ + hex_join(self.spec_segments().subrange(lo as int, hi as int)),
    {
        let ghost segs = self.spec_segments();
        let mut i = lo;
        while i < hi
            invariant
                segs == self.spec_segments(),
                lo <= i <= hi <= 8,
                out@ == old(out)@ + hex_join(segs.subrange(lo as int, i as int)),
            decreases hi - i,
        {
            let ghost before = out@;
            if i > lo {
                out.push(':');
            }
            push_hex(out, self.segment(i));
            proof {
                let next = segs.subrange(lo as int, i + 1);
                assert(next.drop_last() =~= segs.subrange(lo as int, i as int));
                assert(next.last() == segs[i as int]);
                if i == lo {
                    assert(next.len() == 1);
                } else {
                    assert(out@ =~= old(out)@ + (hex_join(next.drop_last()) + seq![':'] + hex_text(
                        next.last() as nat,
                    )));
                }
            }
            i = i + 1;
        }
    }

    /// Appends the text form to `out`.
    pub fn push_text(&self, out: &mut Vec<char>)
        ensures
            final(out)@ == old(out)@ + self.spec_text(),
    {
        match self.to_ipv4_mapped() {
            Some(v4) => {
                let prefix = [':', ':', 'f', 'f', 'f', 'f', ':'];
                push_all(out, &prefix);
                assert(prefix@ =~= seq![':', ':', 'f', 'f', 'f', 'f', ':']);
                v4.push_text(out);
                assert(out@ =~= old(out)@ + self.spec_text());
            },
            None => {
                let (start, len) = self.longest_zeros();
                if len > 1 {
                    self.push_hex_join(out, 0, start);
                    out.push(':');
                    out.push(':');
                    self.push_hex_join(out, start + len, 8);
                    assert(out@ =~= old(out)@ + self.spec_text());
                } else {
                    self.push_hex_join(out, 0, 8);
                    assert(self.spec_segments().subrange(0, 8) =~= self.spec_segments());
                }
            },
        }
    }
}

proof fn lemma_zero_run_step(segs: Seq<int>, i: int)
    requires
        0 <= i < segs.len(),
        segs[i] == 0,
    ensures
        zero_run(segs, i) == 1 + zero_run(segs, i + 1),
{
}

proof fn lemma_zero_run_fits(segs: Seq<int>, i: int)
    requires
        0 <= i,
    ensures
        zero_run(segs, i) <= if i <= segs.len() { segs.len() - i } else { 0 },
    decreases segs.len() - i,
{
    if 0 <= i < segs.len() && segs[i] == 0 {
        lemma_zero_run_fits(segs, i + 1);
    }
}

proof fn lemma_zero_run_stop(segs: Seq<int>, i: int)
    requires
        i >= segs.len() || (0 <= i && segs[i] != 0),
    ensures
        zero_run(segs, i) == 0,
{
}

/// Every run that starts before `n` is at most the longest one.
proof fn lemma_longest_bound(segs: Seq<int>, n: int)
    ensures
        forall|j: int| 0 <= j < n ==> zero_run(segs, j) <= longest_zero_run(segs, n),
    decreases n,
{
    if n > 0 {
        lemma_longest_bound(segs, n - 1);
    }
}

/// The first start of a run of `len` is `s` when runs before `s` are shorter.
proof fn lemma_first_run_of(segs: Seq<int>, len: nat, s: int, i: int)
    requires
        0 <= i <= s < segs.len(),
        zero_run(segs, s) == len,
        forall|j: int| 0 <= j < s ==> zero_run(segs, j) < len,
    ensures
        first_run_of(segs, len, i) == s,
    decreases s - i,
{
    if i < s {
        lemma_first_run_of(segs, len, s, i + 1);
    }
}

impl IpAddress {
    pub open spec fn spec_text(self) -> Seq<char> {
        match self {
            IpAddress::V4(a) => a.spec_text(),
            IpAddress::V6(a) => a.spec_text(),
        }
    }

    pub fn is_ipv4(&self) -> (r: bool)
        ensures
            r == (self is V4),
    {
        match self {
            IpAddress::V4(_) => true,
            IpAddress::V6(_) => false,
        }
    }

    /// Appends the text form to `out`.
    pub fn push_text(&self, out: &mut Vec<char>)
        ensures
            final(out)@ == old(out)@ + self.spec_text(),
    {
        match self {
            IpAddress::V4(a) => a.push_text(out),
            IpAddress::V6(a) => a.push_text(out),
        }
    }
}

} // verus!
