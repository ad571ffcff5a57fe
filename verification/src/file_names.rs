use vstd::prelude::*;

verus! {

/// Where the last dot stands among the first `n` characters of `s`, or -1 where there is none.
pub open spec fn last_dot_before(s: Seq<char>, n: int) -> int
    decreases n,
{
    if n <= 0 {
        -1
    } else if s[n - 1] == '.' {
        n - 1
    } else {
        last_dot_before(s, n - 1)
    }
}

/// The extension of a file name, as paths read it: what follows the last dot, where there is
/// one and it is not the name's first character.
pub open spec fn name_extension(s: Seq<char>) -> Option<Seq<char>> {
    let k = last_dot_before(s, s.len() as int);
    if k <= 0 {
        None
    } else {
        Some(s.subrange(k + 1, s.len() as int))
    }
}

/// Whether a file name has the extension `ext`.
pub fn has_extension(name: &str, ext: &str) -> (res: bool)
    ensures
        res == (name_extension(name@) == Some(ext@)),
{
    let n = name.unicode_len();
    let mut k: usize = n;
    while k > 0 && name.get_char(k - 1) != '.'
        invariant
            k <= n,
            n == name@.len(),
            last_dot_before(name@, n as int) == last_dot_before(name@, k as int),
        decreases k,
    {
        k -= 1;
    }
    if k <= 1 {
        return false;
    }
    assert(last_dot_before(name@, k as int) == k - 1);
    assert(name_extension(name@) == Some(name@.subrange(k as int, n as int)));
    let m = ext.unicode_len();
    if n - k != m {
        proof {
            if name_extension(name@) == Some(ext@) {
                assert(name@.subrange(k as int, n as int).len() == ext@.len());
            }
        }
        return false;
    }
    let mut i: usize = 0;
    while i < m
        invariant
            1 < k <= n,
            n == name@.len(),
            m == ext@.len(),
            n - k == m,
            i <= m,
            name_extension(name@) == Some(name@.subrange(k as int, n as int)),
            name@.subrange(k as int, k + i) =~= ext@.subrange(0, i as int),
        decreases m - i,
    {
        if name.get_char(k + i) != ext.get_char(i) {
            proof {
                assert(name@.subrange(k as int, n as int)[i as int] != ext@[i as int]);
            }
            return false;
        }
        i += 1;
        assert(name@.subrange(k as int, k + i) =~= ext@.subrange(0, i as int));
    }
    assert(name@.subrange(k as int, n as int) =~= ext@);
    true
}

/// Whether a file name begins with `prefix`.
pub fn has_prefix(name: &str, prefix: &str) -> (res: bool)
    ensures
        res == prefix@.is_prefix_of(name@),
{
    let n = name.unicode_len();
    let m = prefix.unicode_len();
    if m > n {
        return false;
    }
    let mut i: usize = 0;
    while i < m
        invariant
            m <= n,
            n == name@.len(),
            m == prefix@.len(),
            i <= m,
            name@.subrange(0, i as int) =~= prefix@.subrange(0, i as int),
        decreases m - i,
    {
        if name.get_char(i) != prefix.get_char(i) {
            proof {
                assert(name@.subrange(0, m as int)[i as int] != prefix@[i as int]);
            }
            return false;
        }
        i += 1;
        assert(name@.subrange(0, i as int) =~= prefix@.subrange(0, i as int));
    }
    assert(name@.subrange(0, m as int) =~= prefix@);
    true
}

/// Whether a file of this name is a configuration file: its name begins with `prefix` and
/// has the extension `ext`.
pub fn is_config_file_name(name: &str, prefix: &str, ext: &str) -> (res: bool)
    ensures
        res == (prefix@.is_prefix_of(name@) && name_extension(name@) == Some(ext@)),
{
    has_prefix(name, prefix) && has_extension(name, ext)
}

} // verus!
