//! Small text helpers shared by the parsing and registry code.

use vstd::prelude::*;

verus! {

/// Character-by-character equality test for string slices.
pub fn str_eq(a: &str, b: &str) -> (r: bool)
    ensures
        r == (a@ == b@),
{
    let a_len = a.unicode_len();
    let b_len = b.unicode_len();
    if a_len != b_len {
        assert(a@ != b@) by {
            assert(a@.len() != b@.len());
        }
        return false;
    }
    let mut i: usize = 0;
    while i < a_len
        invariant
            a_len == a@.len(),
            b_len == b@.len(),
            a_len == b_len,
            i <= a_len,
            forall|j: int| 0 <= j < i ==> a@[j] == b@[j],
        decreases a_len - i,
    {
        if a.get_char(i) != b.get_char(i) {
            return false;
        }
        i += 1;
    }
    proof {
        assert(a@ =~= b@);
    }
    true
}

/// The characters of `s` before the first occurrence of `stop`.
pub open spec fn run_before(s: Seq<char>, stop: char) -> Seq<char>
    decreases s.len(),
{
    if s.len() == 0 || s[0] == stop {
        Seq::<char>::empty()
    } else {
        seq![s[0]] + run_before(s.drop_first(), stop)
    }
}

/// The suffix of `s` starting at the first occurrence of `stop`.
pub open spec fn from_stop(s: Seq<char>, stop: char) -> Seq<char>
    decreases s.len(),
{
    if s.len() == 0 || s[0] == stop {
        s
    } else {
        from_stop(s.drop_first(), stop)
    }
}

proof fn lemma_from_stop_le(s: Seq<char>, stop: char)
    ensures
        from_stop(s, stop).len() <= s.len(),
    decreases s.len(),
{
    if s.len() > 0 && s[0] != stop {
        lemma_from_stop_le(s.drop_first(), stop);
    }
}

/// The `n`-th space-separated field of `s` (0-based), if `s` has that
/// many fields; runs of spaces separate fields and carry no empty ones.
pub open spec fn nth_token(s: Seq<char>, n: nat) -> Option<Seq<char>>
    decreases s.len(), n,
    via nth_token_decreases
{
    if s.len() == 0 {
        None
    } else if s[0] == ' ' {
        nth_token(s.drop_first(), n)
    } else if n == 0 {
        Some(run_before(s, ' '))
    } else {
        nth_token(from_stop(s, ' '), (n - 1) as nat)
    }
}

#[via_fn]
proof fn nth_token_decreases(s: Seq<char>, n: nat) {
    if s.len() > 0 && s[0] != ' ' && n > 0 {
        lemma_from_stop_le(s.drop_first(), ' ');
    }
}

/// The text between the first ':' and the next ':' or the end: how the
/// textual port is read out of a `host:port` remote address.
pub open spec fn addr_port(s: Seq<char>) -> Option<Seq<char>>
    decreases s.len(),
{
    if s.len() == 0 {
        None
    } else if s[0] == ':' {
        Some(run_before(s.drop_first(), ':'))
    } else {
        addr_port(s.drop_first())
    }
}

proof fn lemma_run_before_range(s: Seq<char>, stop: char, i: int, j: int)
    requires
        0 <= i <= j <= s.len(),
        forall|k: int| i <= k < j ==> s[k] != stop,
        j == s.len() || s[j] == stop,
    ensures
        run_before(s.skip(i), stop) == s.subrange(i, j),
    decreases j - i,
{
    if i == j {
        if i == s.len() {
            assert(s.skip(i) =~= Seq::<char>::empty());
        } else {
            assert(s.skip(i)[0] == s[i]);
        }
        assert(s.subrange(i, j) =~= Seq::<char>::empty());
    } else {
        assert(s.skip(i)[0] == s[i]);
        assert(s.skip(i).drop_first() =~= s.skip(i + 1));
        lemma_run_before_range(s, stop, i + 1, j);
        assert(seq![s[i]] + s.subrange(i + 1, j) =~= s.subrange(i, j));
    }
}

proof fn lemma_addr_port_skip(s: Seq<char>, c: int)
    requires
        0 <= c <= s.len(),
        forall|k: int| 0 <= k < c ==> s[k] != ':',
    ensures
        addr_port(s) == addr_port(s.skip(c)),
    decreases c,
{
    if c > 0 {
        assert(s.drop_first() =~= s.skip(1));
        assert(forall|k: int| 0 <= k < c - 1 ==> s.drop_first()[k] == s[k + 1]);
        lemma_addr_port_skip(s.drop_first(), c - 1);
        assert(s.drop_first().skip(c - 1) =~= s.skip(c));
    } else {
        assert(s.skip(0) =~= s);
    }
}

/// The index of the first occurrence of `stop` in `s` at or after
/// `from`, or the length of `s` if there is none.
fn scan_from(s: &str, from: usize, stop: char) -> (j: usize)
    requires
        from <= s@.len(),
    ensures
        from <= j <= s@.len(),
        forall|k: int| from <= k < j ==> s@[k] != stop,
        j < s@.len() ==> s@[j as int] == stop,
{
    let len = s.unicode_len();
    let mut j = from;
    while j < len && s.get_char(j) != stop
        invariant
            from <= j <= len,
            len == s@.len(),
            forall|k: int| from <= k < j ==> s@[k] != stop,
        decreases len - j,
    {
        j += 1;
    }
    j
}

/// Extracts the `n`-th (0-based) space-separated field of `s`.
pub fn nth_token_of(s: &str, n: usize) -> (r: Option<String>)
    ensures
        match r {
            Some(t) => nth_token(s@, n as nat) == Some(t@),
            None => nth_token(s@, n as nat) is None,
        },
{
    let len = s.unicode_len();
    let mut i: usize = 0;
    let mut rem: usize = n;
    proof {
        assert(s@.skip(0) =~= s@);
    }
    loop
        invariant
            i <= len,
            len == s@.len(),
            nth_token(s@, n as nat) == nth_token(s@.skip(i as int), rem as nat),
        decreases len - i,
    {
        let ghost i_start = i;
        while i < len && s.get_char(i) == ' '
            invariant
                i_start <= i <= len,
                len == s@.len(),
                nth_token(s@, n as nat) == nth_token(s@.skip(i as int), rem as nat),
            decreases len - i,
        {
            proof {
                assert(s@.skip(i as int)[0] == s@[i as int]);
                assert(s@.skip(i as int).drop_first() =~= s@.skip(i as int + 1));
            }
            i += 1;
        }
        if i == len {
            proof {
                assert(s@.skip(len as int) =~= Seq::<char>::empty());
            }
            return None;
        }
        proof {
            assert(s@[i as int] != ' ');
            assert(s@.skip(i as int)[0] == s@[i as int]);
        }
        if rem == 0 {
            let j = scan_from(s, i, ' ');
            let tok = s.substring_char(i, j).to_owned();
            proof {
                lemma_run_before_range(s@, ' ', i as int, j as int);
            }
            return Some(tok);
        }
        let ghost i0 = i;
        while i < len && s.get_char(i) != ' '
            invariant
                i_start <= i0 <= i <= len,
                len == s@.len(),
                s@[i0 as int] != ' ',
                from_stop(s@.skip(i0 as int), ' ') == from_stop(s@.skip(i as int), ' '),
            decreases len - i,
        {
            proof {
                assert(s@.skip(i as int)[0] == s@[i as int]);
                assert(s@.skip(i as int).drop_first() =~= s@.skip(i as int + 1));
            }
            i += 1;
        }
        proof {
            if i == i0 {
                assert(false);
            }
            assert(nth_token(s@.skip(i0 as int), rem as nat) == nth_token(
                from_stop(s@.skip(i0 as int), ' '),
                (rem - 1) as nat,
            ));
            if i < len {
                assert(s@.skip(i as int)[0] == s@[i as int]);
            } else {
                assert(s@.skip(i as int) =~= Seq::<char>::empty());
            }
            assert(from_stop(s@.skip(i as int), ' ') == s@.skip(i as int));
        }
        rem -= 1;
    }
}

/// Extracts the transport port of an ICE candidate description: its
/// sixth space-separated field.
pub fn candidate_port(cand: &str) -> (r: Option<String>)
    ensures
        match r {
            Some(p) => nth_token(cand@, 5) == Some(p@),
            None => nth_token(cand@, 5) is None,
        },
{
    nth_token_of(cand, 5)
}

/// Extracts the textual port of a remote address.
pub fn addr_port_of(s: &str) -> (r: Option<String>)
    ensures
        match r {
            Some(p) => addr_port(s@) == Some(p@),
            None => addr_port(s@) is None,
        },
{
    let len = s.unicode_len();
    let c = scan_from(s, 0, ':');
    proof {
        lemma_addr_port_skip(s@, c as int);
    }
    if c == len {
        proof {
            assert(s@.skip(len as int) =~= Seq::<char>::empty());
        }
        return None;
    }
    let j = scan_from(s, c + 1, ':');
    let p = s.substring_char(c + 1, j).to_owned();
    proof {
        assert(s@.skip(c as int)[0] == s@[c as int]);
        assert(s@.skip(c as int).drop_first() =~= s@.skip(c as int + 1));
        lemma_run_before_range(s@, ':', c as int + 1, j as int);
    }
    Some(p)
}

} // verus!
