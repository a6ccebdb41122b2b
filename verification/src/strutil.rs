use vstd::prelude::*;
use vstd::string::*;

verus! {

/// ASCII whitespace: what gets stripped from the ends of a line.
pub open spec fn is_space(c: char) -> bool {
    c == ' ' || c == '\t' || c == '\r' || c == '\n' || c == '\x0b' || c == '\x0c'
}

/// Square brackets, stripped from the ends of a section header
/// and from around a bracketed IPv6 host.
pub open spec fn is_bracket(c: char) -> bool {
    c == '[' || c == ']'
}

pub fn space_char(c: char) -> (r: bool)
    ensures
        r == is_space(c),
{
    c == ' ' || c == '\t' || c == '\r' || c == '\n' || c == '\x0b' || c == '\x0c'
}

pub fn bracket_char(c: char) -> (r: bool)
    ensures
        r == is_bracket(c),
{
    c == '[' || c == ']'
}

pub open spec fn trim_front(s: Seq<char>) -> Seq<char>
    decreases s.len(),
{
    if s.len() > 0 && is_space(s[0]) {
        trim_front(s.skip(1))
    } else {
        s
    }
}

pub open spec fn trim_back(s: Seq<char>) -> Seq<char>
    decreases s.len(),
{
    if s.len() > 0 && is_space(s.last()) {
        trim_back(s.drop_last())
    } else {
        s
    }
}

/// A line with ASCII whitespace stripped from both ends.
pub open spec fn trim(s: Seq<char>) -> Seq<char> {
    trim_back(trim_front(s))
}

/// A trimmed sequence is left unchanged by trimming.
pub proof fn lemma_trim_of_trimmed(s: Seq<char>)
    requires
        s.len() > 0 ==> !is_space(s[0]) && !is_space(s.last()),
    ensures
        trim(s) == s,
{
}

pub fn trim_str<'a>(s: &'a str) -> (r: &'a str)
    ensures
        r@ == trim(s@),
{
    let n: usize = s.unicode_len();
    let mut i: usize = 0;
    proof {
        assert(s@.skip(0) =~= s@);
    }
    while i < n && space_char(s.get_char(i))
        invariant
            0 <= i <= n,
            n == s@.len(),
            trim_front(s@.skip(i as int)) == trim_front(s@),
        decreases n - i,
    {
        proof {
            assert(s@.skip(i as int).skip(1) =~= s@.skip(i as int + 1));
        }
        i = i + 1;
    }
    proof {
        assert(trim_front(s@) == s@.skip(i as int));
        assert(s@.skip(i as int) =~= s@.subrange(i as int, n as int));
    }
    let mut j: usize = n;
    while j > i && space_char(s.get_char(j - 1))
        invariant
            i <= j <= n,
            n == s@.len(),
            trim_back(s@.subrange(i as int, j as int)) == trim_back(s@.subrange(i as int, n as int)),
        decreases j,
    {
        proof {
            assert(s@.subrange(i as int, j as int).drop_last() =~= s@.subrange(
                i as int,
                j as int - 1,
            ));
        }
        j = j - 1;
    }
    proof {
        assert(trim_back(s@.subrange(i as int, j as int)) == s@.subrange(i as int, j as int));
    }
    s.substring_char(i, j)
}

pub open spec fn trim_front_brackets(s: Seq<char>) -> Seq<char>
    decreases s.len(),
{
    if s.len() > 0 && is_bracket(s[0]) {
        trim_front_brackets(s.skip(1))
    } else {
        s
    }
}

pub open spec fn trim_back_brackets(s: Seq<char>) -> Seq<char>
    decreases s.len(),
{
    if s.len() > 0 && is_bracket(s.last()) {
        trim_back_brackets(s.drop_last())
    } else {
        s
    }
}

/// A sequence with all leading and trailing square brackets stripped.
pub open spec fn trim_brackets(s: Seq<char>) -> Seq<char> {
    trim_back_brackets(trim_front_brackets(s))
}

pub fn trim_brackets_str<'a>(s: &'a str) -> (r: &'a str)
    ensures
        r@ == trim_brackets(s@),
{
    let n: usize = s.unicode_len();
    let mut i: usize = 0;
    proof {
        assert(s@.skip(0) =~= s@);
    }
    while i < n && bracket_char(s.get_char(i))
        invariant
            0 <= i <= n,
            n == s@.len(),
            trim_front_brackets(s@.skip(i as int)) == trim_front_brackets(s@),
        decreases n - i,
    {
        proof {
            assert(s@.skip(i as int).skip(1) =~= s@.skip(i as int + 1));
        }
        i = i + 1;
    }
    proof {
        assert(trim_front_brackets(s@) == s@.skip(i as int));
        assert(s@.skip(i as int) =~= s@.subrange(i as int, n as int));
    }
    let mut j: usize = n;
    while j > i && bracket_char(s.get_char(j - 1))
        invariant
            i <= j <= n,
            n == s@.len(),
            trim_back_brackets(s@.subrange(i as int, j as int)) == trim_back_brackets(
                s@.subrange(i as int, n as int),
            ),
        decreases j,
    {
        proof {
            assert(s@.subrange(i as int, j as int).drop_last() =~= s@.subrange(
                i as int,
                j as int - 1,
            ));
        }
        j = j - 1;
    }
    proof {
        assert(trim_back_brackets(s@.subrange(i as int, j as int)) == s@.subrange(
            i as int,
            j as int,
        ));
    }
    s.substring_char(i, j)
}

pub open spec fn split_acc(t: Seq<char>, c: char, cur: Seq<char>) -> Seq<Seq<char>>
    decreases t.len(),
{
    if t.len() == 0 {
        seq![cur]
    } else if t[0] == c {
        seq![cur] + split_acc(t.skip(1), c, Seq::empty())
    } else {
        split_acc(t.skip(1), c, cur.push(t[0]))
    }
}

/// The pieces of `t` between occurrences of the separator `c`,
/// in order, including empty pieces; splitting the empty sequence
/// gives one empty piece.
pub open spec fn split_on(t: Seq<char>, c: char) -> Seq<Seq<char>> {
    split_acc(t, c, Seq::empty())
}

pub fn split_str(s: &str, c: char) -> (r: Vec<String>)
    ensures
        r.deep_view() == split_on(s@, c),
        r.len() >= 1,
{
    let n: usize = s.unicode_len();
    let mut r: Vec<String> = Vec::new();
    let mut cur: String = String::new();
    let mut k: usize = 0;
    proof {
        assert(s@.skip(0) =~= s@);
        assert(r.deep_view() =~= Seq::<Seq<char>>::empty());
        assert(Seq::<Seq<char>>::empty() + split_acc(s@, c, Seq::empty()) =~= split_acc(
            s@,
            c,
            Seq::empty(),
        ));
    }
    while k < n
        invariant
            0 <= k <= n,
            n == s@.len(),
            split_on(s@, c) == r.deep_view() + split_acc(s@.skip(k as int), c, cur@),
        decreases n - k,
    {
        let ch = s.get_char(k);
        proof {
            assert(s@.skip(k as int)[0] == s@[k as int]);
            assert(s@.skip(k as int).skip(1) =~= s@.skip(k as int + 1));
        }
        if ch == c {
            let ghost prev = r.deep_view();
            let ghost prev_cur = cur@;
            r.push(cur);
            cur = String::new();
            proof {
                assert(r.deep_view() =~= prev.push(prev_cur));
                assert(prev.push(prev_cur) =~= prev + seq![prev_cur]);
                assert((prev + seq![prev_cur]) + split_acc(s@.skip(k as int + 1), c, Seq::empty())
                    =~= prev + (seq![prev_cur] + split_acc(s@.skip(k as int + 1), c, Seq::empty())));
            }
        } else {
            let ghost prev_cur = cur@;
            cur.append(s.substring_char(k, k + 1));
            proof {
                assert(s@.subrange(k as int, k as int + 1) =~= seq![s@[k as int]]);
                assert(cur@ =~= prev_cur.push(s@[k as int]));
            }
        }
        k = k + 1;
    }
    let ghost prev = r.deep_view();
    let ghost prev_cur = cur@;
    r.push(cur);
    proof {
        assert(r.deep_view() =~= prev.push(prev_cur));
        assert(prev.push(prev_cur) =~= prev + seq![prev_cur]);
    }
    r
}

/// True when `c` occurs somewhere in `s`.
pub open spec fn contains_char(s: Seq<char>, c: char) -> bool {
    exists|i: int| 0 <= i < s.len() && s[i] == c
}

pub fn has_char(s: &str, c: char) -> (r: bool)
    ensures
        r == contains_char(s@, c),
{
    let n: usize = s.unicode_len();
    let mut k: usize = 0;
    while k < n
        invariant
            0 <= k <= n,
            n == s@.len(),
            forall|i: int| 0 <= i < k ==> s@[i] != c,
        decreases n - k,
    {
        if s.get_char(k) == c {
            return true;
        }
        k = k + 1;
    }
    false
}

/// The index of the first occurrence of `c` in `s`, or -1 when absent.
pub open spec fn find_first(s: Seq<char>, c: char) -> int
    decreases s.len(),
{
    if s.len() == 0 {
        -1
    } else if s[0] == c {
        0
    } else {
        let r = find_first(s.skip(1), c);
        if r < 0 {
            -1
        } else {
            r + 1
        }
    }
}

/// `find_first` returns the first index whose character is `c`.
pub proof fn lemma_find_first_at(s: Seq<char>, c: char, k: int)
    requires
        0 <= k <= s.len(),
        forall|j: int| 0 <= j < k ==> s[j] != c,
        k < s.len() ==> s[k] == c,
    ensures
        find_first(s, c) == if k < s.len() {
            k
        } else {
            -1
        },
    decreases k,
{
    if k == 0 {
        if s.len() > 0 && s[0] != c {
            assert(k == 0 && !(k < s.len())) by {
                assert(k < s.len() ==> s[k] == c);
            }
        }
    } else {
        assert(s[0] != c);
        lemma_find_first_at(s.skip(1), c, k - 1);
    }
}

pub fn find_char(s: &str, c: char) -> (r: Option<usize>)
    ensures
        match r {
            Some(i) => find_first(s@, c) == i as int && i < s@.len(),
            None => find_first(s@, c) == -1,
        },
{
    let n: usize = s.unicode_len();
    let mut k: usize = 0;
    while k < n
        invariant
            0 <= k <= n,
            n == s@.len(),
            forall|j: int| 0 <= j < k ==> s@[j] != c,
        decreases n - k,
    {
        if s.get_char(k) == c {
            proof {
                lemma_find_first_at(s@, c, k as int);
            }
            return Some(k);
        }
        k = k + 1;
    }
    proof {
        lemma_find_first_at(s@, c, n as int);
    }
    None
}

/// The index of the last occurrence of `c` in `s`, or -1 when absent.
pub open spec fn find_last(s: Seq<char>, c: char) -> int
    decreases s.len(),
{
    if s.len() == 0 {
        -1
    } else if s.last() == c {
        s.len() - 1
    } else {
        find_last(s.drop_last(), c)
    }
}

pub fn rfind_char(s: &str, c: char) -> (r: Option<usize>)
    ensures
        match r {
            Some(i) => find_last(s@, c) == i as int && i < s@.len(),
            None => find_last(s@, c) == -1,
        },
{
    let n: usize = s.unicode_len();
    let mut j: usize = n;
    proof {
        assert(s@.take(n as int) =~= s@);
    }
    while j > 0
        invariant
            0 <= j <= n,
            n == s@.len(),
            find_last(s@, c) == find_last(s@.take(j as int), c),
        decreases j,
    {
        if s.get_char(j - 1) == c {
            proof {
                assert(s@.take(j as int).last() == s@[j as int - 1]);
            }
            return Some(j - 1);
        }
        proof {
            assert(s@.take(j as int).last() == s@[j as int - 1]);
            assert(s@.take(j as int).drop_last() =~= s@.take(j as int - 1));
        }
        j = j - 1;
    }
    None
}

pub fn str_eq(a: &str, b: &str) -> (r: bool)
    ensures
        r == (a@ == b@),
{
    let na: usize = a.unicode_len();
    let nb: usize = b.unicode_len();
    if na != nb {
        return false;
    }
    let mut k: usize = 0;
    while k < na
        invariant
            0 <= k <= na,
            na == a@.len(),
            na == b@.len(),
            forall|i: int| 0 <= i < k ==> a@[i] == b@[i],
        decreases na - k,
    {
        if a.get_char(k) != b.get_char(k) {
            return false;
        }
        k = k + 1;
    }
    proof {
        assert(a@ =~= b@);
    }
    true
}

} // verus!
