use vstd::prelude::*;
use crate::text::{is_white_space, white_space};

verus! {

/// The words of `s`: its maximal runs of characters other than white space.
pub open spec fn words(s: Seq<char>) -> Seq<Seq<char>>
    decreases s.len(),
{
    if s.len() == 0 {
        Seq::empty()
    } else {
        let w = words(s.drop_last());
        let c = s.last();
        if white_space(c) {
            w
        } else if s.len() >= 2 && !white_space(s[s.len() - 2]) {
            w.update(w.len() - 1, w.last().push(c))
        } else {
            w.push(seq![c])
        }
    }
}

proof fn lemma_words_nonempty(s: Seq<char>)
    requires
        s.len() > 0,
        !white_space(s.last()),
    ensures
        words(s).len() > 0,
    decreases s.len(),
{
    if s.len() >= 2 && !white_space(s[s.len() - 2]) {
        lemma_words_nonempty(s.drop_last());
    }
}

/// The words of `line`.
pub fn split_words(line: &str) -> (r: Vec<String>)
    ensures
        r@.len() == words(line@).len(),
        forall|j: int| 0 <= j < r@.len() ==> #[trigger] r@[j]@ == words(line@)[j],
{
    let n = line.unicode_len();
    let mut r: Vec<String> = Vec::new();
    let mut start: usize = 0;
    let mut i: usize = 0;
    while i < n
        invariant
            n == line@.len(),
            i <= n,
            start <= i,
            r@.len() == words(line@.subrange(0, i as int)).len(),
            forall|j: int|
                0 <= j < r@.len() ==> #[trigger] r@[j]@ == words(line@.subrange(0, i as int))[j],
            i > 0 && !white_space(line@[i - 1]) ==> r@.len() > 0 && words(
                line@.subrange(0, i as int),
            ).last() == line@.subrange(start as int, i as int),
        decreases n - i,
    {
        let ghost p = line@.subrange(0, i as int);
        let ghost q = line@.subrange(0, i + 1);
        assert(q.drop_last() =~= p);
        assert(q.last() == line@[i as int]);
        let c = line.get_char(i);
        if is_white_space(c) {
        } else if i >= 1 && !is_white_space(line.get_char(i - 1)) {
            assert(q[q.len() - 2] == line@[i - 1]);
            let k = r.len() - 1;
            r.set(k, line.substring_char(start, i + 1).to_owned());
            assert(line@.subrange(start as int, i + 1) =~= line@.subrange(start as int, i as int).push(c));
        } else {
            start = i;
            r.push(line.substring_char(i, i + 1).to_owned());
            assert(line@.subrange(i as int, i + 1) =~= seq![c]);
        }
        proof {
            if !white_space(c) {
                lemma_words_nonempty(q);
            }
        }
        i = i + 1;
    }
    assert(line@.subrange(0, n as int) =~= line@);
    r
}

/// Whether `pat` occurs in `s`.
pub open spec fn has_infix(s: Seq<char>, pat: Seq<char>) -> bool {
    exists|k: int| 0 <= k && k + pat.len() <= s.len() && #[trigger] s.subrange(k, k + pat.len()) == pat
}

fn matches_at(s: &str, pat: &str, k: usize) -> (r: bool)
    requires
        k + pat@.len() <= s@.len(),
    ensures
        r == (s@.subrange(k as int, k + pat@.len()) == pat@),
{
    let n = s.unicode_len();
    let m = pat.unicode_len();
    let mut j: usize = 0;
    while j < m
        invariant
            n == s@.len(),
            m == pat@.len(),
            k + m <= s@.len(),
            j <= m,
            forall|t: int| 0 <= t < j ==> s@[k + t] == pat@[t],
        decreases m - j,
    {
        if s.get_char(k + j) != pat.get_char(j) {
            assert(s@.subrange(k as int, k + m)[j as int] != pat@[j as int]);
            return false;
        }
        j = j + 1;
    }
    assert(s@.subrange(k as int, k + m) =~= pat@);
    true
}

/// Whether `pat` occurs in `s`.
pub fn contains(s: &str, pat: &str) -> (r: bool)
    ensures
        r == has_infix(s@, pat@),
{
    let n = s.unicode_len();
    let m = pat.unicode_len();
    if m > n {
        return false;
    }
    let mut k: usize = 0;
    while k <= n - m
        invariant
            n == s@.len(),
            m == pat@.len(),
            m <= n,
            k <= n - m + 1,
            forall|t: int| 0 <= t < k ==> #[trigger] s@.subrange(t, t + m) != pat@,
        decreases n - m + 1 - k,
    {
        if matches_at(s, pat, k) {
            return true;
        }
        if k == n - m {
            return false;
        }
        k = k + 1;
    }
    false
}

/// The phrase of the forge CLI's status report that opens the line naming the
/// logged-in account.
pub open spec fn account_phrase() -> Seq<char> {
    "Logged in to github.com account"@
}

/// Whether `line` names the account: it holds the phrase and at least seven words.
pub open spec fn names_account(line: Seq<char>) -> bool {
    has_infix(line, account_phrase()) && words(line).len() > 6
}

/// Whether `s[a..b]` is a line of `s`: it is delimited by the ends of `s` or
/// by newlines, and holds none.
pub open spec fn is_line(s: Seq<char>, a: int, b: int) -> bool {
    &&& 0 <= a <= b <= s.len()
    &&& a == 0 || s[a - 1] == '\n'
    &&& b == s.len() || s[b] == '\n'
    &&& forall|t: int| a <= t < b ==> #[trigger] s[t] != '\n'
}

/// The user name in the status report `s`: the seventh word of its first line
/// that names the account, or nothing when no line does.
pub open spec fn reported_user(s: Seq<char>, r: Seq<char>) -> bool {
    ||| exists|a: int, b: int|
        #[trigger] is_line(s, a, b) && names_account(s.subrange(a, b)) && r == words(s.subrange(a, b))[6]
            && forall|a2: int, b2: int|
            #[trigger] is_line(s, a2, b2) && a2 < a ==> !names_account(s.subrange(a2, b2))
    ||| r.len() == 0 && forall|a: int, b: int|
        #[trigger] is_line(s, a, b) ==> !names_account(s.subrange(a, b))
}

/// The user name that the status report `text` of the forge CLI gives, or an
/// empty string when it names no account.
pub fn username_from_status(text: &str) -> (r: String)
    ensures
        reported_user(text@, r@),
{
    let phrase = "Logged in to github.com account";
    let n = text.unicode_len();
    let mut a: usize = 0;
    let mut i: usize = 0;
    while i <= n
        invariant
            n == text@.len(),
            a <= i <= n,
            phrase@ == account_phrase(),
            a == 0 || text@[a - 1] == '\n',
            forall|t: int| a <= t < i ==> #[trigger] text@[t] != '\n',
            forall|a2: int, b2: int|
                #[trigger] is_line(text@, a2, b2) && a2 < a ==> !names_account(text@.subrange(a2, b2)),
        decreases n + 1 - i,
    {
        if i == n || text.get_char(i) == '\n' {
            let line = text.substring_char(a, i);
            assert(is_line(text@, a as int, i as int));
            proof {
                assert forall|a2: int, b2: int| #[trigger] is_line(text@, a2, b2) && a2 == a implies b2
                    == i by {
                    if b2 < i {
                        assert(text@[b2] == '\n');
                    }
                    if b2 > i {
                        assert(text@[i as int] != '\n');
                    }
                }
            }
            if contains(line, phrase) {
                let w = split_words(line);
                if w.len() > 6 {
                    let u = w[6].clone();
                    assert(u@ == words(text@.subrange(a as int, i as int))[6]);
                    return u;
                }
            }
            proof {
                assert forall|a2: int, b2: int| #[trigger] is_line(text@, a2, b2) && a2 < i + 1
                    implies !names_account(text@.subrange(a2, b2)) by {
                    if a2 > a {
                        assert(text@[a2 - 1] == '\n');
                    }
                }
            }
            if i == n {
                proof {
                    assert forall|a2: int, b2: int| #[trigger] is_line(text@, a2, b2) implies !names_account(
                        text@.subrange(a2, b2),
                    ) by {
                        assert(a2 < i + 1);
                    }
                }
                return String::new();
            }
            a = i + 1;
        }
        i = i + 1;
    }
    String::new()
}

} // verus!
