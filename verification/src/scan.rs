//! Byte-string scanning used by the parsers: first occurrences, slice
//! equality, whitespace trimming.

use vstd::prelude::*;

verus! {

/// Index of the first occurrence of `b`, if any.
pub open spec fn find_byte(s: Seq<u8>, b: u8) -> Option<int>
    decreases s.len(),
{
    if s.len() == 0 {
        None
    } else if s[0] == b {
        Some(0)
    } else {
        match find_byte(s.skip(1), b) {
            Some(i) => Some(i + 1),
            None => None,
        }
    }
}

pub proof fn lemma_find_byte(s: Seq<u8>, b: u8)
    ensures
        match find_byte(s, b) {
            Some(i) => 0 <= i < s.len() && s[i] == b && forall|j: int| 0 <= j < i ==> s[j] != b,
            None => forall|j: int| 0 <= j < s.len() ==> s[j] != b,
        },
    decreases s.len(),
{
    if s.len() == 0 {
    } else if s[0] == b {
    } else {
        lemma_find_byte(s.skip(1), b);
        assert forall|j: int| 0 <= j < s.skip(1).len() implies s.skip(1)[j] == s[j + 1] by {}
        match find_byte(s.skip(1), b) {
            Some(i) => {
                assert(s[i + 1] == b);
                assert forall|j: int| 0 <= j < i + 1 implies s[j] != b by {
                    if j > 0 {
                        assert(s.skip(1)[j - 1] != b);
                    }
                }
            },
            None => {
                assert forall|j: int| 0 <= j < s.len() implies s[j] != b by {
                    if j > 0 {
                        assert(s.skip(1)[j - 1] != b);
                    }
                }
            },
        }
    }
}

/// Index of the first CRLF pair, if any.
pub open spec fn find_crlf(s: Seq<u8>) -> Option<int>
    decreases s.len(),
{
    if s.len() < 2 {
        None
    } else if s[0] == 13 && s[1] == 10 {
        Some(0)
    } else {
        match find_crlf(s.skip(1)) {
            Some(i) => Some(i + 1),
            None => None,
        }
    }
}

pub open spec fn crlf_at(s: Seq<u8>, i: int) -> bool {
    0 <= i && i + 1 < s.len() && s[i] == 13 && s[i + 1] == 10
}

pub proof fn lemma_find_crlf(s: Seq<u8>)
    ensures
        match find_crlf(s) {
            Some(i) => crlf_at(s, i) && forall|j: int| 0 <= j < i ==> !crlf_at(s, j),
            None => forall|j: int| 0 <= j ==> !crlf_at(s, j),
        },
    decreases s.len(),
{
    if s.len() < 2 {
    } else if s[0] == 13 && s[1] == 10 {
    } else {
        lemma_find_crlf(s.skip(1));
        assert forall|j: int| 0 <= j < s.skip(1).len() implies s.skip(1)[j] == s[j + 1] by {}
        match find_crlf(s.skip(1)) {
            Some(i) => {
                assert(crlf_at(s.skip(1), i));
                assert(crlf_at(s, i + 1));
                assert forall|j: int| 0 <= j < i + 1 implies !crlf_at(s, j) by {
                    if j == 0 {
                    } else {
                        assert(!crlf_at(s.skip(1), j - 1));
                    }
                }
            },
            None => {
                assert forall|j: int| 0 <= j implies !crlf_at(s, j) by {
                    if j == 0 {
                    } else {
                        assert(!crlf_at(s.skip(1), j - 1));
                    }
                }
            },
        }
    }
}

/// Index of the first CRLFCRLF, the head terminator, if any.
pub open spec fn find_crlfcrlf(s: Seq<u8>) -> Option<int>
    decreases s.len(),
{
    if s.len() < 4 {
        None
    } else if s[0] == 13 && s[1] == 10 && s[2] == 13 && s[3] == 10 {
        Some(0)
    } else {
        match find_crlfcrlf(s.skip(1)) {
            Some(i) => Some(i + 1),
            None => None,
        }
    }
}

pub open spec fn crlfcrlf_at(s: Seq<u8>, i: int) -> bool {
    0 <= i && i + 3 < s.len() && s[i] == 13 && s[i + 1] == 10 && s[i + 2] == 13 && s[i + 3] == 10
}

pub proof fn lemma_find_crlfcrlf(s: Seq<u8>)
    ensures
        match find_crlfcrlf(s) {
            Some(i) => crlfcrlf_at(s, i) && forall|j: int| 0 <= j < i ==> !crlfcrlf_at(s, j),
            None => forall|j: int| 0 <= j ==> !crlfcrlf_at(s, j),
        },
    decreases s.len(),
{
    if s.len() < 4 {
    } else if s[0] == 13 && s[1] == 10 && s[2] == 13 && s[3] == 10 {
    } else {
        lemma_find_crlfcrlf(s.skip(1));
        assert forall|j: int| 0 <= j < s.skip(1).len() implies s.skip(1)[j] == s[j + 1] by {}
        match find_crlfcrlf(s.skip(1)) {
            Some(i) => {
                assert(crlfcrlf_at(s.skip(1), i));
                assert(crlfcrlf_at(s, i + 1));
                assert forall|j: int| 0 <= j < i + 1 implies !crlfcrlf_at(s, j) by {
                    if j == 0 {
                    } else {
                        assert(!crlfcrlf_at(s.skip(1), j - 1));
                    }
                }
            },
            None => {
                assert forall|j: int| 0 <= j implies !crlfcrlf_at(s, j) by {
                    if j == 0 {
                    } else {
                        assert(!crlfcrlf_at(s.skip(1), j - 1));
                    }
                }
            },
        }
    }
}

/// A position that matches with nothing matching before it is what
/// `find_byte` returns.
pub proof fn lemma_find_byte_is(s: Seq<u8>, b: u8, k: int)
    requires
        0 <= k < s.len(),
        s[k] == b,
        forall|j: int| 0 <= j < k ==> s[j] != b,
    ensures
        find_byte(s, b) == Some(k),
{
    lemma_find_byte(s, b);
    match find_byte(s, b) {
        Some(i) => {
            if i < k {
                assert(s[i] != b);
            } else if i > k {
                assert(s[k] != b);
            }
        },
        None => {
            assert(s[k] != b);
        },
    }
}

pub proof fn lemma_find_crlf_is(s: Seq<u8>, k: int)
    requires
        crlf_at(s, k),
        forall|j: int| 0 <= j < k ==> !crlf_at(s, j),
    ensures
        find_crlf(s) == Some(k),
{
    lemma_find_crlf(s);
    match find_crlf(s) {
        Some(i) => {
            if i < k {
                assert(!crlf_at(s, i));
            } else if i > k {
                assert(!crlf_at(s, k));
            }
        },
        None => {
            assert(!crlf_at(s, k));
        },
    }
}

pub proof fn lemma_find_crlfcrlf_is(s: Seq<u8>, k: int)
    requires
        crlfcrlf_at(s, k),
        forall|j: int| 0 <= j < k ==> !crlfcrlf_at(s, j),
    ensures
        find_crlfcrlf(s) == Some(k),
{
    lemma_find_crlfcrlf(s);
    match find_crlfcrlf(s) {
        Some(i) => {
            if i < k {
                assert(!crlfcrlf_at(s, i));
            } else if i > k {
                assert(!crlfcrlf_at(s, k));
            }
        },
        None => {
            assert(!crlfcrlf_at(s, k));
        },
    }
}

pub fn find_byte_exec(s: &[u8], b: u8) -> (r: Option<usize>)
    ensures
        match r {
            Some(u) => find_byte(s@, b) == Some(u as int),
            None => find_byte(s@, b) is None,
        },
{
    proof {
        lemma_find_byte(s@, b);
    }
    let mut i: usize = 0;
    while i < s.len()
        invariant
            0 <= i <= s@.len(),
            forall|j: int| 0 <= j < i ==> s@[j] != b,
            match find_byte(s@, b) {
                Some(k) => 0 <= k < s@.len() && s@[k] == b && forall|j: int| 0 <= j < k ==> s@[j] != b,
                None => forall|j: int| 0 <= j < s@.len() ==> s@[j] != b,
            },
        decreases s@.len() - i,
    {
        if s[i] == b {
            return Some(i);
        }
        i = i + 1;
    }
    None
}

pub fn find_crlf_exec(s: &[u8]) -> (r: Option<usize>)
    ensures
        match r {
            Some(u) => find_crlf(s@) == Some(u as int),
            None => find_crlf(s@) is None,
        },
{
    proof {
        lemma_find_crlf(s@);
    }
    let n = s.len();
    if n < 2 {
        return None;
    }
    let mut i: usize = 0;
    while i + 1 < n
        invariant
            0 <= i < n,
            n == s@.len(),
            forall|j: int| 0 <= j < i ==> !crlf_at(s@, j),
            match find_crlf(s@) {
                Some(k) => crlf_at(s@, k) && forall|j: int| 0 <= j < k ==> !crlf_at(s@, j),
                None => forall|j: int| 0 <= j ==> !crlf_at(s@, j),
            },
        decreases s@.len() - i,
    {
        if s[i] == 13 && s[i + 1] == 10 {
            proof {
                assert(crlf_at(s@, i as int));
                match find_crlf(s@) {
                    Some(k) => {
                        if k < i {
                            assert(!crlf_at(s@, k));
                        } else if k > i {
                            assert(!crlf_at(s@, i as int));
                        }
                    },
                    None => {
                        assert(!crlf_at(s@, i as int));
                    },
                }
            }
            return Some(i);
        }
        i = i + 1;
    }
    None
}

pub fn find_crlfcrlf_exec(s: &[u8]) -> (r: Option<usize>)
    ensures
        match r {
            Some(u) => find_crlfcrlf(s@) == Some(u as int),
            None => find_crlfcrlf(s@) is None,
        },
{
    proof {
        lemma_find_crlfcrlf(s@);
    }
    let n = s.len();
    if n < 4 {
        return None;
    }
    let mut i: usize = 0;
    while i < n - 3
        invariant
            4 <= n,
            0 <= i < n,
            n == s@.len(),
            forall|j: int| 0 <= j < i ==> !crlfcrlf_at(s@, j),
            match find_crlfcrlf(s@) {
                Some(k) => crlfcrlf_at(s@, k) && forall|j: int| 0 <= j < k ==> !crlfcrlf_at(s@, j),
                None => forall|j: int| 0 <= j ==> !crlfcrlf_at(s@, j),
            },
        decreases s@.len() - i,
    {
        if s[i] == 13 && s[i + 1] == 10 && s[i + 2] == 13 && s[i + 3] == 10 {
            proof {
                assert(crlfcrlf_at(s@, i as int));
                match find_crlfcrlf(s@) {
                    Some(k) => {
                        if k < i {
                            assert(!crlfcrlf_at(s@, k));
                        } else if k > i {
                            assert(!crlfcrlf_at(s@, i as int));
                        }
                    },
                    None => {
                        assert(!crlfcrlf_at(s@, i as int));
                    },
                }
            }
            return Some(i);
        }
        i = i + 1;
    }
    None
}

/// Byte-wise equality of two slices.
pub fn slice_eq(a: &[u8], b: &[u8]) -> (r: bool)
    ensures
        r == (a@ == b@),
{
    if a.len() != b.len() {
        return false;
    }
    let mut i: usize = 0;
    while i < a.len()
        invariant
            0 <= i <= a@.len(),
            a@.len() == b@.len(),
            forall|j: int| 0 <= j < i ==> a@[j] == b@[j],
        decreases a@.len() - i,
    {
        if a[i] != b[i] {
            return false;
        }
        i = i + 1;
    }
    proof {
        assert(a@ =~= b@);
    }
    true
}

pub open spec fn is_ws(b: u8) -> bool {
    b == 32 || b == 9
}

/// `s` without leading spaces and tabs.
pub open spec fn trim_start(s: Seq<u8>) -> Seq<u8>
    decreases s.len(),
{
    if s.len() > 0 && is_ws(s[0]) {
        trim_start(s.skip(1))
    } else {
        s
    }
}

/// `s` without trailing spaces and tabs.
pub open spec fn trim_end(s: Seq<u8>) -> Seq<u8>
    decreases s.len(),
{
    if s.len() > 0 && is_ws(s.last()) {
        trim_end(s.drop_last())
    } else {
        s
    }
}

/// `s` without leading and trailing spaces and tabs.
pub open spec fn trim_ws(s: Seq<u8>) -> Seq<u8> {
    trim_end(trim_start(s))
}

proof fn lemma_trim_start_skip(s: Seq<u8>, i: int)
    requires
        0 <= i <= s.len(),
        forall|j: int| 0 <= j < i ==> is_ws(s[j]),
        i == s.len() || !is_ws(s[i]),
    ensures
        trim_start(s) == s.skip(i),
    decreases i,
{
    if i == 0 {
        assert(s.skip(0) =~= s);
    } else {
        lemma_trim_start_skip(s.skip(1), i - 1);
        assert(s.skip(1).skip(i - 1) =~= s.skip(i));
    }
}

proof fn lemma_trim_end_take(s: Seq<u8>, e: int)
    requires
        0 <= e <= s.len(),
        forall|j: int| e <= j < s.len() ==> is_ws(s[j]),
        e == 0 || !is_ws(s[e - 1]),
    ensures
        trim_end(s) == s.take(e),
    decreases s.len() - e,
{
    if e == s.len() {
        assert(s.take(e) =~= s);
    } else {
        assert(is_ws(s.last()));
        lemma_trim_end_take(s.drop_last(), e);
        assert(s.drop_last().take(e) =~= s.take(e));
    }
}

/// Copies `s` without surrounding spaces and tabs.
pub fn trim_ws_exec(s: &[u8]) -> (r: Vec<u8>)
    ensures
        r@ == trim_ws(s@),
{
    let mut i: usize = 0;
    while i < s.len() && (s[i] == 32 || s[i] == 9)
        invariant
            0 <= i <= s@.len(),
            forall|j: int| 0 <= j < i ==> is_ws(s@[j]),
        decreases s@.len() - i,
    {
        i = i + 1;
    }
    proof {
        lemma_trim_start_skip(s@, i as int);
    }
    let mut e: usize = s.len();
    while e > i && (s[e - 1] == 32 || s[e - 1] == 9)
        invariant
            i <= e <= s@.len(),
            forall|j: int| e <= j < s@.len() ==> is_ws(s@[j]),
        decreases e,
    {
        e = e - 1;
    }
    let mut out: Vec<u8> = Vec::new();
    let mut k: usize = i;
    while k < e
        invariant
            i <= k <= e <= s@.len(),
            out@ == s@.subrange(i as int, k as int),
        decreases e - k,
    {
        out.push(s[k]);
        proof {
            assert(out@ =~= s@.subrange(i as int, k + 1));
        }
        k = k + 1;
    }
    proof {
        let t = s@.skip(i as int);
        if e == i {
            assert(forall|j: int| 0 <= j < t.len() ==> is_ws(t[j]));
            lemma_trim_end_take(t, 0);
        } else {
            assert(!is_ws(t[e - i - 1]));
            lemma_trim_end_take(t, e - i);
        }
        assert(t.take(e - i) =~= s@.subrange(i as int, e as int));
        assert(out@ == trim_ws(s@));
    }
    out
}

} // verus!
