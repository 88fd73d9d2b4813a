//! Finding code in process memory: byte patterns with wildcards, and the
//! start of the function around an address.
use vstd::prelude::*;

verus! {

/// One position of a byte pattern.
#[derive(Clone, Copy, PartialEq, Eq, Structural, Debug)]
pub enum Token {
    /// Matches any byte.
    Any,
    /// Matches exactly this byte.
    Byte(u8),
}

/// `pattern` matches `hay` at position `n`.
pub open spec fn matches_at(hay: Seq<u8>, pattern: Seq<Token>, n: int) -> bool {
    &&& 0 <= n
    &&& n + pattern.len() <= hay.len()
    &&& forall|i: int|
        0 <= i < pattern.len() ==> match #[trigger] pattern[i] {
            Token::Any => true,
            Token::Byte(b) => b == hay[n + i],
        }
}

/// How patterns match: the exact bytes of a window match it; a byte token
/// that differs from its byte rules the window out; wildcards match any
/// window that fits; and turning a token into a wildcard keeps a match.
pub proof fn lemma_match_rules(hay: Seq<u8>, pattern: Seq<Token>, n: int)
    ensures
        0 <= n && n + pattern.len() <= hay.len() && (forall|i: int|
            0 <= i < pattern.len() ==> #[trigger] pattern[i] == Token::Byte(hay[n + i]))
            ==> matches_at(hay, pattern, n),
        (exists|i: int|
            0 <= i < pattern.len() && #[trigger] pattern[i] is Byte && pattern[i]->Byte_0 != hay[n
                + i]) ==> !matches_at(hay, pattern, n),
        0 <= n && n + pattern.len() <= hay.len() && (forall|i: int|
            0 <= i < pattern.len() ==> #[trigger] pattern[i] == Token::Any) ==> matches_at(
            hay,
            pattern,
            n,
        ),
        forall|j: int|
            0 <= j < pattern.len() && matches_at(hay, pattern, n) ==> #[trigger] matches_at(
                hay,
                pattern.update(j, Token::Any),
                n,
            ),
{
    if exists|i: int|
        0 <= i < pattern.len() && #[trigger] pattern[i] is Byte && pattern[i]->Byte_0 != hay[n
            + i] {
        let i = choose|i: int|
            0 <= i < pattern.len() && #[trigger] pattern[i] is Byte && pattern[i]->Byte_0 != hay[n
                + i];
        assert(match pattern[i] {
            Token::Any => true,
            Token::Byte(b) => b != hay[n + i],
        });
    }
    assert forall|j: int|
        0 <= j < pattern.len() && matches_at(hay, pattern, n) implies #[trigger] matches_at(
        hay,
        pattern.update(j, Token::Any),
        n,
    ) by {
        let q = pattern.update(j, Token::Any);
        assert forall|i: int| 0 <= i < q.len() implies match #[trigger] q[i] {
            Token::Any => true,
            Token::Byte(b) => b == hay[n + i],
        } by {
            if i != j {
                assert(q[i] == pattern[i]);
            }
        }
    }
}

/// The first position at which `pattern` matches `hay`, if any.
pub fn search(hay: &[u8], pattern: &[Token]) -> (r: Option<usize>)
    requires
        pattern@.len() > 0,
    ensures
        r matches Some(n) ==> matches_at(hay@, pattern@, n as int) && forall|m: int|
            0 <= m < n ==> !matches_at(hay@, pattern@, m),
        r is None ==> forall|m: int| !matches_at(hay@, pattern@, m),
{
    if hay.len() < pattern.len() {
        return None;
    }
    let last = hay.len() - pattern.len();
    assert(hay@.len() <= usize::MAX);
    let mut n: usize = 0;
    while n <= last
        invariant
            last == hay@.len() - pattern@.len(),
            hay@.len() <= usize::MAX,
            pattern@.len() > 0,
            n <= last + 1,
            forall|m: int| 0 <= m < n ==> !matches_at(hay@, pattern@, m),
        decreases last + 1 - n,
    {
        let mut i: usize = 0;
        let mut ok = true;
        while ok && i < pattern.len()
            invariant
                n <= last,
                last == hay@.len() - pattern@.len(),
                hay@.len() <= usize::MAX,
                i <= pattern@.len(),
                ok ==> forall|j: int|
                    0 <= j < i ==> match #[trigger] pattern@[j] {
                        Token::Any => true,
                        Token::Byte(b) => b == hay@[n + j],
                    },
                !ok ==> i < pattern@.len() && match pattern@[i as int] {
                    Token::Any => false,
                    Token::Byte(b) => b != hay@[n + i],
                },
            decreases pattern@.len() - i + if ok {
                1int
            } else {
                0int
            },
        {
            match pattern[i] {
                Token::Any => {
                    i = i + 1;
                },
                Token::Byte(b) => {
                    if b != hay[n + i] {
                        ok = false;
                    } else {
                        i = i + 1;
                    }
                },
            }
        }
        if ok {
            return Some(n);
        }
        proof {
            assert(!matches_at(hay@, pattern@, n as int)) by {
                assert(match pattern@[i as int] {
                    Token::Any => false,
                    Token::Byte(b) => b != hay@[n + i],
                });
            }
        }
        n = n + 1;
    }
    None
}

/// The bytes around index `i` look like the start of a function: the
/// previous instruction ends a function (`int3`, `ret` or `ret imm16`) and
/// the code at `i` pushes registers or sets up a frame pointer.
pub open spec fn is_function_start(mem: Seq<u8>, i: int) -> bool {
    let n3 = mem[i - 3];
    let n1 = mem[i - 1];
    let p0 = mem[i];
    let p1 = mem[i + 1];
    let p2 = mem[i + 2];
    &&& (n1 == 0xcc || n1 == 0xc3 || n3 == 0xc2)
    &&& 0x50 <= p0 < 0x58
    &&& ((0x50 <= p1 < 0x58) || (p1 == 0x8b && p2 == 0xec))
}

/// The `k`-th candidate address: `addr` rounded down to 16, then 16 bytes
/// lower per step.
pub open spec fn candidate(addr: usize, k: int) -> int {
    addr - addr % 16 - 16 * k
}

/// The bytes around address `a` lie inside the memory `mem` that starts at
/// address `base`.
pub open spec fn candidate_readable(mem: Seq<u8>, base: usize, a: int) -> bool {
    base + 3 <= a && a + 3 <= base + mem.len()
}

/// Candidates `0..k` are readable and none of them starts a function.
pub open spec fn skipped(mem: Seq<u8>, base: usize, addr: usize, k: int) -> bool {
    forall|j: int|
        0 <= j < k ==> candidate_readable(mem, base, #[trigger] candidate(addr, j))
            && !is_function_start(mem, candidate(addr, j) - base)
}

/// The start of the function containing address `addr`, searching the
/// 16-byte aligned addresses at or below `addr` inside `mem`, which holds
/// the bytes from address `base` on. `None` when the search leaves `mem`.
pub fn get_function(mem: &[u8], base: usize, addr: usize) -> (r: Option<usize>)
    requires
        base + mem@.len() <= usize::MAX,
    ensures
        r matches Some(a) ==> exists|k: int|
            0 <= k && a == candidate(addr, k) && skipped(mem@, base, addr, k) && candidate_readable(
                mem@,
                base,
                a as int,
            ) && is_function_start(mem@, a - base),
        r is None ==> exists|k: int|
            0 <= k && skipped(mem@, base, addr, k) && !candidate_readable(
                mem@,
                base,
                candidate(addr, k),
            ),
{
    let mut a: usize = addr - addr % 16;
    let ghost mut k: int = 0;
    loop
        invariant
            base + mem@.len() <= usize::MAX,
            0 <= k,
            a == candidate(addr, k),
            skipped(mem@, base, addr, k),
        decreases a,
    {
        if mem.len() < 3 || a < base || a - base < 3 || a - base > mem.len() - 3 {
            return None;
        }
        let i = a - base;
        let n3 = mem[i - 3];
        let n1 = mem[i - 1];
        let p0 = mem[i];
        let p1 = mem[i + 1];
        let p2 = mem[i + 2];
        if (n1 == 0xcc || n1 == 0xc3 || n3 == 0xc2) && (0x50 <= p0 && p0 < 0x58) && ((0x50 <= p1
            && p1 < 0x58) || (p1 == 0x8b && p2 == 0xec)) {
            return Some(a);
        }
        if a < 16 {
            proof {
                assert(!candidate_readable(mem@, base, candidate(addr, k + 1)));
                assert(skipped(mem@, base, addr, k + 1));
            }
            return None;
        }
        a = a - 16;
        proof {
            k = k + 1;
        }
    }
}

} // verus!
