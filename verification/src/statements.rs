use vstd::prelude::*;
use vstd::string::StrSliceExecFns;
use crate::text::str_eq;

verus! {

// ---------------------------------------------------------------------------
// Statement splitting for migration scripts.
// ---------------------------------------------------------------------------

/// An ASCII whitespace character.
pub open spec fn is_space(c: char) -> bool {
    c == ' ' || c == '\t' || c == '\n' || c == '\r'
}

fn is_space_exec(c: char) -> (r: bool)
    ensures
        r == is_space(c),
{
    c == ' ' || c == '\t' || c == '\n' || c == '\r'
}

/// The text with leading ASCII whitespace removed.
pub open spec fn trim_front(s: Seq<char>) -> Seq<char>
    decreases s.len(),
{
    if s.len() > 0 && is_space(s[0]) {
        trim_front(s.subrange(1, s.len() as int))
    } else {
        s
    }
}

/// The text with trailing ASCII whitespace removed.
pub open spec fn trim_back(s: Seq<char>) -> Seq<char>
    decreases s.len(),
{
    if s.len() > 0 && is_space(s[s.len() - 1]) {
        trim_back(s.subrange(0, s.len() - 1))
    } else {
        s
    }
}

/// The text with surrounding ASCII whitespace removed.
pub open spec fn trimmed(s: Seq<char>) -> Seq<char> {
    trim_back(trim_front(s))
}

proof fn lemma_trim_front_range(s: Seq<char>, a: int)
    requires
        0 <= a <= s.len(),
        forall|j: int| 0 <= j < a ==> is_space(s[j]),
        a < s.len() ==> !is_space(s[a]),
    ensures
        trim_front(s) == s.subrange(a, s.len() as int),
    decreases a,
{
    if a == 0 {
        assert(s.subrange(0, s.len() as int) =~= s);
    } else {
        let t = s.subrange(1, s.len() as int);
        lemma_trim_front_range(t, a - 1);
        assert(t.subrange(a - 1, t.len() as int) =~= s.subrange(a, s.len() as int));
    }
}

proof fn lemma_trim_back_range(s: Seq<char>, b: int)
    requires
        0 <= b <= s.len(),
        forall|j: int| b <= j < s.len() ==> is_space(s[j]),
        b > 0 ==> !is_space(s[b - 1]),
    ensures
        trim_back(s) == s.subrange(0, b),
    decreases s.len() - b,
{
    if b == s.len() {
        assert(s.subrange(0, b) =~= s);
    } else {
        let t = s.subrange(0, s.len() - 1);
        lemma_trim_back_range(t, b);
        assert(t.subrange(0, b) =~= s.subrange(0, b));
    }
}

/// Removes surrounding ASCII whitespace from a statement.
pub fn trim_statement(s: &str) -> (r: String)
    ensures
        r@ == trimmed(s@),
{
    let n = s.unicode_len();
    let mut a: usize = 0;
    while a < n && is_space_exec(s.get_char(a))
        invariant
            0 <= a <= n,
            n == s@.len(),
            forall|j: int| 0 <= j < a ==> is_space(s@[j]),
        decreases n - a,
    {
        a += 1;
    }
    proof {
        lemma_trim_front_range(s@, a as int);
    }
    let mut b: usize = n;
    while b > a && is_space_exec(s.get_char(b - 1))
        invariant
            a <= b <= n,
            n == s@.len(),
            forall|j: int| b <= j < n ==> is_space(s@[j]),
            a < n ==> !is_space(s@[a as int]),
            forall|j: int| 0 <= j < a ==> is_space(s@[j]),
        decreases b,
    {
        b -= 1;
    }
    let r = s.substring_char(a, b).to_owned();
    proof {
        let f = trim_front(s@);
        assert(f == s@.subrange(a as int, n as int));
        if b == a {
            lemma_trim_back_range(f, 0);
        } else {
            assert forall|j: int| b - a <= j < f.len() implies is_space(f[j]) by {
                assert(f[j] == s@[a + j]);
            }
            assert(!is_space(f[b - a - 1]));
            lemma_trim_back_range(f, b - a);
        }
        assert(f.subrange(0, b - a) =~= s@.subrange(a as int, b as int));
    }
    r
}

/// The index of the first semicolon at or after `i`, or the length.
pub open spec fn first_semi(s: Seq<char>, i: int) -> int
    decreases s.len() - i,
{
    if i < 0 || i >= s.len() {
        s.len() as int
    } else if s[i] == ';' {
        i
    } else {
        first_semi(s, i + 1)
    }
}

/// The non-empty trimmed statements of a script, in order: the script is
/// split on semicolons, each piece is trimmed, and empty pieces are
/// dropped.
pub open spec fn statements_of(s: Seq<char>) -> Seq<Seq<char>>
    decreases s.len(),
{
    let k0 = first_semi(s, 0);
    let k: int = if k0 < 0 {
        0
    } else if k0 > s.len() {
        s.len() as int
    } else {
        k0
    };
    if k >= s.len() {
        if trimmed(s).len() == 0 {
            Seq::empty()
        } else {
            seq![trimmed(s)]
        }
    } else {
        let head = trimmed(s.subrange(0, k));
        let rest = statements_of(s.subrange(k + 1, s.len() as int));
        if head.len() == 0 {
            rest
        } else {
            seq![head] + rest
        }
    }
}

/// The views of a sequence of strings.
pub open spec fn strs_view(s: Seq<String>) -> Seq<Seq<char>> {
    Seq::new(s.len(), |i: int| s[i]@)
}

/// Splits a migration script into its non-empty trimmed statements.
pub fn split_statements(cql: &str) -> (r: Vec<String>)
    ensures
        strs_view(r@) == statements_of(cql@),
    decreases cql@.len(),
{
    let n = cql.unicode_len();
    let mut k: usize = 0;
    while k < n && cql.get_char(k) != ';'
        invariant
            0 <= k <= n,
            n == cql@.len(),
            first_semi(cql@, 0) == first_semi(cql@, k as int),
        decreases n - k,
    {
        k += 1;
    }
    proof {
        assert(first_semi(cql@, 0) == k as int);
    }
    if k == n {
        let t = trim_statement(cql);
        let mut r: Vec<String> = Vec::new();
        if t.unicode_len() != 0 {
            r.push(t);
            proof {
                assert(strs_view(r@) =~= statements_of(cql@));
            }
        } else {
            proof {
                assert(strs_view(r@) =~= statements_of(cql@));
            }
        }
        r
    } else {
        let head = cql.substring_char(0, k);
        let tail = cql.substring_char(k + 1, n);
        let t = trim_statement(head);
        let mut rest = split_statements(tail);
        if t.unicode_len() != 0 {
            let ghost pre = rest@;
            rest.insert(0, t);
            proof {
                assert forall|j: int| 0 <= j < rest@.len() implies strs_view(rest@)[j]
                    == statements_of(cql@)[j] by {
                    if j > 0 {
                        assert(rest@[j] == pre[j - 1]);
                        assert(strs_view(pre)[j - 1] == statements_of(tail@)[j - 1]);
                    }
                }
                assert(strs_view(rest@) =~= statements_of(cql@));
            }
        } else {
            proof {
                assert(strs_view(rest@) =~= statements_of(cql@));
            }
        }
        rest
    }
}

// ---------------------------------------------------------------------------
// Migration scheduling: which statements still have to run.
// ---------------------------------------------------------------------------

/// The statements that still have to run, each with its index: every
/// statement whose index is above the last recorded one, in order.
pub open spec fn pending_of(st: Seq<Seq<char>>, last: Option<int>) -> Seq<(int, Seq<char>)> {
    let start: int = match last {
        Option::Some(l) => if l < 0 {
            0
        } else if l + 1 > st.len() {
            st.len() as int
        } else {
            l + 1
        },
        Option::None => 0,
    };
    Seq::new((st.len() - start) as nat, |j: int| (start + j, st[start + j]))
}

/// Pairs the statements with their indices and drops every statement whose
/// index the store has already recorded as applied.
pub fn pending_statements(statements: &Vec<String>, last_index: Option<i32>) -> (r: Vec<
    (i32, String),
>)
    requires
        statements@.len() <= i32::MAX,
    ensures
        r@.len() == pending_of(strs_view(statements@), match last_index {
            Option::Some(l) => Option::Some(l as int),
            Option::None => Option::None,
        }).len(),
        forall|j: int|
            0 <= j < r@.len() ==> (r@[j].0 as int, r@[j].1@) == pending_of(
                strs_view(statements@),
                match last_index {
                    Option::Some(l) => Option::Some(l as int),
                    Option::None => Option::None,
                },
            )[j],
{
    let n = statements.len();
    let start: usize = match last_index {
        Option::Some(l) => {
            if l < 0 {
                0
            } else if (l as usize) + 1 > n {
                n
            } else {
                (l as usize) + 1
            }
        },
        Option::None => 0,
    };
    let mut r: Vec<(i32, String)> = Vec::new();
    let mut i: usize = start;
    while i < n
        invariant
            start <= i <= n,
            n == statements@.len(),
            n <= i32::MAX,
            r@.len() == i - start,
            forall|j: int|
                0 <= j < r@.len() ==> (#[trigger] r@[j]).0 as int == start + j && r@[j].1@
                    == statements@[start + j]@,
        decreases n - i,
    {
        let ghost pre = r@;
        r.push((i as i32, statements[i].clone()));
        proof {
            assert forall|j: int|
                0 <= j < r@.len() implies (#[trigger] r@[j]).0 as int == start + j && r@[j].1@
                == statements@[start + j]@ by {
                if j < pre.len() {
                    assert(r@[j] == pre[j]);
                } else {
                    assert(r@[j] == r@.last());
                }
            }
        }
        i += 1;
    }
    proof {
        assert forall|j: int| 0 <= j < r@.len() implies (r@[j].0 as int, r@[j].1@) == pending_of(
            strs_view(statements@),
            match last_index {
                Option::Some(l) => Option::Some(l as int),
                Option::None => Option::None,
            },
        )[j] by {
            assert(strs_view(statements@)[start + j] == statements@[start + j]@);
        }
    }
    r
}

// ---------------------------------------------------------------------------
// Version bookkeeping.
// ---------------------------------------------------------------------------

/// Whether the recorded version list already names a version, whatever its
/// timestamp.
pub open spec fn version_known(versions: Seq<(String, i64)>, v: Seq<char>) -> bool {
    exists|i: int| 0 <= i < versions.len() && (#[trigger] versions[i]).0@ == v
}

/// Whether a version is already recorded for the application.
pub fn has_version(versions: &Vec<(String, i64)>, version: &str) -> (r: bool)
    ensures
        r == version_known(versions@, version@),
{
    let n = versions.len();
    let mut i: usize = 0;
    while i < n
        invariant
            i <= n,
            n == versions@.len(),
            forall|j: int| 0 <= j < i ==> (#[trigger] versions@[j]).0@ != version@,
        decreases n - i,
    {
        if str_eq(versions[i].0.as_str(), version) {
            return true;
        }
        i += 1;
    }
    false
}

} // verus!
