//! Run-length coding. The coded form is a row of pairs, a count from 1 to
//! 255 and the byte that is repeated that many times.

use vstd::prelude::*;

verus! {

/// How many bytes at the start of `s` equal `b`.
pub open spec fn lead_count(s: Seq<u8>, b: u8) -> nat
    decreases s.len(),
{
    if s.len() > 0 && s[0] == b {
        1 + lead_count(s.skip(1), b)
    } else {
        0
    }
}

/// The length of the first run of `s` as it is coded: the bytes equal to the
/// first, 255 of them at most.
pub open spec fn first_run(s: Seq<u8>) -> nat
    recommends
        s.len() > 0,
{
    let n = lead_count(s, s[0]);
    if n > 255 {
        255
    } else {
        n
    }
}

/// `n` times the byte `b`.
pub open spec fn repeat(b: u8, n: nat) -> Seq<u8> {
    Seq::new(n, |i: int| b)
}

/// The coded form of `raw`: its runs in order, each as long as it can be.
pub open spec fn encode(raw: Seq<u8>) -> Seq<u8>
    decreases raw.len(),
{
    if raw.len() == 0 {
        Seq::empty()
    } else {
        let n = first_run(raw);
        if 1 <= n <= raw.len() {
            seq![n as u8, raw[0]] + encode(raw.skip(n as int))
        } else {
            Seq::empty()
        }
    }
}

/// The bytes that `coded` stands for; `None` where it ends in half a pair or
/// holds a count of zero.
pub open spec fn decode(coded: Seq<u8>) -> Option<Seq<u8>>
    decreases coded.len(),
{
    if coded.len() == 0 {
        Some(Seq::empty())
    } else if coded.len() < 2 || coded[0] == 0 {
        None
    } else {
        match decode(coded.skip(2)) {
            Some(rest) => Some(repeat(coded[1], coded[0] as nat) + rest),
            None => None,
        }
    }
}

/// `lead_count` counts exactly the equal bytes at the start.
pub proof fn lemma_lead_count(s: Seq<u8>, b: u8)
    ensures
        lead_count(s, b) <= s.len(),
        forall|i: int| 0 <= i < lead_count(s, b) ==> s[i] == b,
        lead_count(s, b) < s.len() ==> s[lead_count(s, b) as int] != b,
    decreases s.len(),
{
    if s.len() > 0 && s[0] == b {
        lemma_lead_count(s.skip(1), b);
        let n = lead_count(s.skip(1), b);
        assert forall|i: int| 0 <= i < lead_count(s, b) implies s[i] == b by {
            if i > 0 {
                assert(s.skip(1)[i - 1] == s[i]);
            }
        }
        if lead_count(s, b) < s.len() {
            assert(s.skip(1)[n as int] == s[n as int + 1]);
        }
    }
}

/// Where the first `n` bytes of `s` equal `b`, `lead_count` is at least `n`,
/// and exactly `n` where the run ends there.
pub proof fn lemma_lead_count_of_run(s: Seq<u8>, b: u8, n: nat)
    requires
        n <= s.len(),
        forall|i: int| 0 <= i < n ==> s[i] == b,
    ensures
        lead_count(s, b) >= n,
        (n == s.len() || s[n as int] != b) ==> lead_count(s, b) == n,
    decreases n,
{
    lemma_lead_count(s, b);
    if n > 0 {
        assert(s[0] == b);
        assert forall|i: int| 0 <= i < n - 1 implies s.skip(1)[i] == b by {
            assert(s.skip(1)[i] == s[i + 1]);
        }
        lemma_lead_count_of_run(s.skip(1), b, (n - 1) as nat);
        if n < s.len() {
            assert(s.skip(1)[n - 1] == s[n as int]);
        }
    }
}

/// What was coded is decoded again.
pub proof fn lemma_decode_encode(raw: Seq<u8>)
    ensures
        decode(encode(raw)) == Some(raw),
    decreases raw.len(),
{
    if raw.len() > 0 {
        let n = first_run(raw);
        lemma_lead_count(raw, raw[0]);
        assert(lead_count(raw, raw[0]) >= 1);
        let rest = raw.skip(n as int);
        let coded = encode(raw);
        assert(coded == seq![n as u8, raw[0]] + encode(rest));
        assert(coded.skip(2) =~= encode(rest));
        lemma_decode_encode(rest);
        assert(coded[0] == n as u8 && coded[1] == raw[0]);
        assert(repeat(raw[0], n) + rest =~= raw);
    } else {
        assert(encode(raw) =~= Seq::<u8>::empty());
    }
}

/// The coded form of `raw`.
pub fn rle_encode(raw: &[u8]) -> (out: Vec<u8>)
    ensures
        out@ == encode(raw@),
{
    let mut out: Vec<u8> = Vec::new();
    let mut i: usize = 0;
    proof {
        assert(raw@.skip(0) =~= raw@);
        assert(out@ + encode(raw@) =~= encode(raw@));
    }
    while i < raw.len()
        invariant
            i <= raw.len(),
            out@ + encode(raw@.skip(i as int)) == encode(raw@),
        decreases raw.len() - i,
    {
        let b: u8 = raw[i];
        let mut n: usize = 1;
        while n < 255 && i + n < raw.len() && raw[i + n] == b
            invariant
                i < raw.len(),
                1 <= n <= 255,
                i + n <= raw.len(),
                b == raw@[i as int],
                forall|j: int| i <= j < i + n ==> raw@[j] == b,
            decreases raw.len() - i - n,
        {
            n += 1;
        }
        proof {
            let s = raw@.skip(i as int);
            assert forall|k: int| 0 <= k < n implies s[k] == b by {
                assert(s[k] == raw@[i + k]);
            }
            lemma_lead_count_of_run(s, b, n as nat);
            if n < 255 && n < s.len() {
                assert(s[n as int] == raw@[i + n]);
            }
            assert(first_run(s) == n);
            assert(s.skip(n as int) =~= raw@.skip(i + n));
            assert(encode(s) == seq![n as u8, b] + encode(s.skip(n as int)));
            assert(out@.push(n as u8).push(b) + encode(raw@.skip(i + n)) =~= out@ + encode(s));
        }
        out.push(n as u8);
        out.push(b);
        i += n;
    }
    proof {
        assert(raw@.skip(i as int) =~= Seq::<u8>::empty());
        assert(out@ + encode(raw@.skip(i as int)) =~= out@);
    }
    out
}

/// The bytes that `coded` stands for, where there are such bytes and they
/// are no more than `limit`. Nothing longer than `limit` is ever built.
pub fn rle_decode(coded: &[u8], limit: usize) -> (r: Option<Vec<u8>>)
    ensures
        match decode(coded@) {
            Some(raw) => if raw.len() <= limit {
                r matches Some(v) && v@ == raw
            } else {
                r is None
            },
            None => r is None,
        },
{
    let mut out: Vec<u8> = Vec::new();
    let mut i: usize = 0;
    proof {
        assert(coded@.skip(0) =~= coded@);
        match decode(coded@) {
            Some(rest) => {
                assert(out@ + rest =~= rest);
            },
            None => {},
        }
    }
    while i < coded.len()
        invariant
            i <= coded.len(),
            out@.len() <= limit,
            decode(coded@) == match decode(coded@.skip(i as int)) {
                Some(rest) => Some(out@ + rest),
                None => None,
            },
        decreases coded.len() - i,
    {
        let ghost tail = coded@.skip(i as int);
        if coded.len() - i < 2 {
            return None;
        }
        let n: u8 = coded[i];
        let b: u8 = coded[i + 1];
        proof {
            assert(tail[0] == n && tail[1] == b);
            assert(tail.skip(2) =~= coded@.skip(i + 2));
        }
        if n == 0 {
            return None;
        }
        if limit - out.len() < n as usize {
            return None;
        }
        let ghost before = out@;
        let mut k: u8 = 0;
        while k < n
            invariant
                k <= n,
                out@ == before + repeat(b, k as nat),
            decreases n - k,
        {
            out.push(b);
            k += 1;
            proof {
                assert(out@ =~= before + repeat(b, k as nat));
            }
        }
        proof {
            match decode(coded@.skip(i + 2)) {
                Some(rest) => {
                    assert(before + (repeat(b, n as nat) + rest) =~= out@ + rest);
                },
                None => {},
            }
        }
        i += 2;
    }
    proof {
        assert(coded@.skip(i as int) =~= Seq::<u8>::empty());
        assert(out@ + Seq::<u8>::empty() =~= out@);
    }
    Some(out)
}

} // verus!
