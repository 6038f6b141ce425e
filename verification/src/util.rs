//! File-name helpers: stem and extension of a plain file name, split at the
//! last dot (a leading dot starts no extension).

use vstd::prelude::*;

verus! {

/// Index of the last `.` in `s`, or -1 when there is none.
pub open spec fn spec_last_dot(s: Seq<char>) -> int
    decreases s.len(),
{
    if s.len() == 0 {
        -1
    } else if s.last() == '.' {
        s.len() - 1
    } else {
        spec_last_dot(s.drop_last())
    }
}

proof fn lemma_last_dot_take(s: Seq<char>, k: int)
    requires
        0 <= k <= s.len(),
        forall|j: int| k <= j < s.len() ==> s[j] != '.',
    ensures
        spec_last_dot(s) == spec_last_dot(s.take(k)),
    decreases s.len() - k,
{
    if k < s.len() {
        assert(s.drop_last() =~= s.take(s.len() - 1));
        lemma_last_dot_take(s.take(s.len() - 1), k);
        assert(s.take(s.len() - 1).take(k) =~= s.take(k));
    } else {
        assert(s.take(s.len() as int) =~= s);
    }
}

/// The file name without its extension; the whole name when there is no
/// extension, or when the only dot leads the name.
pub open spec fn spec_file_stem(s: Seq<char>) -> Seq<char> {
    let d = spec_last_dot(s);
    if d <= 0 {
        s
    } else {
        s.take(d)
    }
}

/// What follows the last dot, provided a non-empty stem precedes it.
pub open spec fn spec_extension(s: Seq<char>) -> Option<Seq<char>> {
    let d = spec_last_dot(s);
    if d <= 0 {
        None
    } else {
        Some(s.skip(d + 1))
    }
}

/// Position after the last `.`, or 0 when there is none: an executable
/// stand-in for `spec_last_dot`.
fn find_last_dot(s: &str) -> (r: usize)
    ensures
        r <= s@.len(),
        r as int - 1 == spec_last_dot(s@) || (r == 0 && spec_last_dot(s@) == -1),
        r > 0 ==> r as int - 1 == spec_last_dot(s@),
{
    let n: usize = s.unicode_len();
    let mut k: usize = n;
    while k > 0 && s.get_char(k - 1) != '.'
        invariant
            0 <= k <= n,
            n == s@.len(),
            forall|j: int| k <= j < n ==> s@[j] != '.',
        decreases k,
    {
        k = k - 1;
    }
    proof {
        lemma_last_dot_take(s@, k as int);
        if k > 0 {
            assert(s@.take(k as int).last() == s@[k - 1]);
        } else {
            assert(s@.take(0) =~= Seq::<char>::empty());
        }
    }
    k
}

/// The stem of a plain file name.
pub fn file_stem_str<'a>(s: &'a str) -> (r: &'a str)
    ensures
        r@ == spec_file_stem(s@),
{
    let n: usize = s.unicode_len();
    let k = find_last_dot(s);
    if k <= 1 {
        proof {
            assert(s@.subrange(0, n as int) =~= s@);
        }
        s.substring_char(0, n)
    } else {
        let r = s.substring_char(0, k - 1);
        proof {
            assert(r@ =~= s@.take(k - 1));
        }
        r
    }
}

/// The extension of a plain file name, if any.
pub fn extension_str<'a>(s: &'a str) -> (r: Option<&'a str>)
    ensures
        r is Some <==> spec_extension(s@) is Some,
        r is Some ==> r.unwrap()@ == spec_extension(s@).unwrap(),
{
    let n: usize = s.unicode_len();
    let k = find_last_dot(s);
    if k <= 1 {
        None
    } else {
        let r = s.substring_char(k, n);
        proof {
            assert(r@ =~= s@.skip(k as int));
        }
        Some(r)
    }
}

/// File-stem extraction as a small helper trait, implemented for plain
/// strings.
pub trait PathStringLossy {
    spec fn full_name(&self) -> Seq<char>;

    fn file_string_lossy(&self) -> (r: String)
        ensures
            r@ == spec_file_stem(self.full_name()),
    ;
}

impl PathStringLossy for String {
    open spec fn full_name(&self) -> Seq<char> {
        self@
    }

    fn file_string_lossy(&self) -> (r: String) {
        file_stem_str(self.as_str()).to_owned()
    }
}

} // verus!
