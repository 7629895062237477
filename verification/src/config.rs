//! The configuration variables given on the command line as `name=value`.

use vstd::prelude::*;
use vstd::string::{StrSliceExecFns, StringExecFns};

verus! {

/// `s` holds exactly one `=`, at `p`.
pub open spec fn single_equal_at(s: Seq<char>, p: int) -> bool {
    &&& 0 <= p < s.len()
    &&& s[p] == '='
    &&& forall|q: int| 0 <= q < s.len() && #[trigger] s[q] == '=' ==> q == p
}

/// The name and the value of a configuration variable: what comes before
/// and after its only `=`; none when `s` does not hold exactly one `=`.
pub open spec fn config_var_parts(s: Seq<char>) -> Option<(Seq<char>, Seq<char>)> {
    if exists|p: int| single_equal_at(s, p) {
        let p = choose|p: int| single_equal_at(s, p);
        Some((s.take(p), s.skip(p + 1)))
    } else {
        None
    }
}

/// A name and a value free of `=` come back from their `name=value`
/// form.
pub proof fn lemma_config_var_round_trip(name: Seq<char>, value: Seq<char>)
    requires
        !name.contains('='),
        !value.contains('='),
    ensures
        config_var_parts(name + seq!['='] + value) == Some((name, value)),
{
    let s = name + seq!['='] + value;
    let p = name.len() as int;
    assert(s[p] == '=');
    assert forall|q: int| 0 <= q < s.len() && #[trigger] s[q] == '=' implies q == p by {
        if q < p {
            assert(name[q] == s[q]);
        } else if q > p {
            assert(value[q - p - 1] == s[q]);
        }
    }
    assert(single_equal_at(s, p));
    let c = choose|c: int| single_equal_at(s, c);
    assert(c == p);
    assert(s.take(p) =~= name);
    assert(s.skip(p + 1) =~= value);
}

/// Splits a `name=value` configuration variable (see `config_var_parts`).
pub fn parse_config_var(s: &str) -> (r: Option<(String, String)>)
    ensures
        match config_var_parts(s@) {
            Some((name, value)) => r matches Some((n, v)) && n@ == name && v@ == value,
            None => r is None,
        },
{
    let n = s.unicode_len();
    let mut pos: Option<usize> = None;
    let mut count: usize = 0;
    let mut i: usize = 0;
    while i < n
        invariant
            n == s@.len(),
            0 <= i <= n,
            count <= i,
            count == 0 ==> pos is None && forall|q: int| 0 <= q < i ==> s@[q] != '=',
            count >= 1 ==> (pos matches Some(p) && p < i && s@[p as int] == '=' && forall|q: int|
                0 <= q < p ==> s@[q] != '='),
            count == 1 ==> forall|q: int| 0 <= q < i && #[trigger] s@[q] == '=' ==> q == pos->0,
            count >= 2 ==> exists|q: int| 0 <= q < i && s@[q] == '=' && q != pos->0,
        decreases n - i,
    {
        if s.get_char(i) == '=' {
            if count == 0 {
                pos = Some(i);
            }
            if count < 2 {
                count = count + 1;
            }
        }
        i = i + 1;
    }
    if count != 1 {
        proof {
            if exists|p: int| single_equal_at(s@, p) {
                let p = choose|p: int| single_equal_at(s@, p);
                if count >= 2 {
                    let q = choose|q: int| 0 <= q < n && s@[q] == '=' && q != pos->0;
                    assert(q == p);
                    assert(pos->0 == p);
                }
            }
        }
        return None;
    }
    let p = match pos {
        Some(p) => p,
        None => 0,
    };
    proof {
        assert(single_equal_at(s@, p as int));
        let c = choose|q: int| single_equal_at(s@, q);
        assert(c == p);
    }
    let name = String::from_str(s.substring_char(0, p));
    let value = String::from_str(s.substring_char(p + 1, n));
    Some((name, value))
}

} // verus!
