use vstd::prelude::*;
use vstd::string::*;

verus! {

/// The character of decimal digit `d`.
pub open spec fn digit_char(d: int) -> char {
    if d == 0 {
        '0'
    } else if d == 1 {
        '1'
    } else if d == 2 {
        '2'
    } else if d == 3 {
        '3'
    } else if d == 4 {
        '4'
    } else if d == 5 {
        '5'
    } else if d == 6 {
        '6'
    } else if d == 7 {
        '7'
    } else if d == 8 {
        '8'
    } else {
        '9'
    }
}

/// `n` written in decimal, without leading zeros.
pub open spec fn decimal_of(n: nat) -> Seq<char>
    decreases n,
{
    if n < 10 {
        seq![digit_char(n as int)]
    } else {
        decimal_of(n / 10) + seq![digit_char((n % 10) as int)]
    }
}

fn digit_str(d: u64) -> (r: &'static str)
    requires
        d < 10,
    ensures
        r@ == seq![digit_char(d as int)],
{
    if d == 0 {
        proof {
            reveal_strlit("0");
        }
        "0"
    } else if d == 1 {
        proof {
            reveal_strlit("1");
        }
        "1"
    } else if d == 2 {
        proof {
            reveal_strlit("2");
        }
        "2"
    } else if d == 3 {
        proof {
            reveal_strlit("3");
        }
        "3"
    } else if d == 4 {
        proof {
            reveal_strlit("4");
        }
        "4"
    } else if d == 5 {
        proof {
            reveal_strlit("5");
        }
        "5"
    } else if d == 6 {
        proof {
            reveal_strlit("6");
        }
        "6"
    } else if d == 7 {
        proof {
            reveal_strlit("7");
        }
        "7"
    } else if d == 8 {
        proof {
            reveal_strlit("8");
        }
        "8"
    } else {
        proof {
            reveal_strlit("9");
        }
        "9"
    }
}

/// `n` written in decimal.
pub fn decimal(n: u64) -> (r: String)
    ensures
        r@ == decimal_of(n as nat),
    decreases n,
{
    if n < 10 {
        String::from_str(digit_str(n))
    } else {
        let mut s = decimal(n / 10);
        s.append(digit_str(n % 10));
        s
    }
}

/// A character that git refuses anywhere in a branch name: the ASCII control
/// characters, space, `~`, `^`, `:` and `\`.
pub open spec fn forbidden_in_ref(c: char) -> bool {
    (c as u32) < 32 || (c as u32) == 127 || c == ' ' || c == '~' || c == '^' || c == ':' || c
        == '\\'
}

/// `pat` occurs somewhere in `s`.
pub open spec fn occurs_in(s: Seq<char>, pat: Seq<char>) -> bool {
    exists|i: int| 0 <= i && i + pat.len() <= s.len() && #[trigger] s.subrange(i, i + pat.len()) == pat
}

/// A name that is accepted as a branch name.
pub open spec fn valid_ref_name(s: Seq<char>) -> bool {
    &&& !(s.len() > 0 && s[0] == '-')
    &&& !(s.len() > 0 && s.last() == '.')
    &&& forall|i: int| 0 <= i < s.len() ==> !forbidden_in_ref(#[trigger] s[i])
    &&& !occurs_in(s, seq!['/', '.'])
    &&& !occurs_in(s, seq!['@', '{'])
    &&& !occurs_in(s, seq!['.', '.'])
    &&& s != seq!['@']
}

/// Relies on rustygit's `BranchName::from_str`, which accepts a name exactly
/// when it does not start with `-`, does not end with `.`, holds no ASCII
/// control character nor any of ` ~^:\`, holds none of `/.`, `@{`, `..`, and
/// is not `@`.
#[verifier::external_body]
fn branch_name_accepted(name: &str) -> (r: bool)
    ensures
        r == valid_ref_name(name@),
{
    <rustygit::types::BranchName as std::str::FromStr>::from_str(name).is_ok()
}

/// Why a branch name was refused.
#[derive(Debug, Clone, Copy, PartialEq, Eq, Structural)]
pub enum NameError {
    InvalidBranchName,
}

/// The name of a stack's branch: its prefix, a slash, and the change's name.
pub open spec fn branch_name_of(prefix: Seq<char>, name: Seq<char>) -> Seq<char> {
    prefix + seq!['/'] + name
}

/// The branch name `prefix/name`, refused when it is no valid branch name.
pub fn get_branch_name(prefix: &String, name: &String) -> (r: Result<String, NameError>)
    ensures
        valid_ref_name(branch_name_of(prefix@, name@)) ==> (r matches Ok(s) && s@
            == branch_name_of(prefix@, name@)),
        !valid_ref_name(branch_name_of(prefix@, name@)) ==> r == Err::<String, NameError>(
            NameError::InvalidBranchName,
        ),
{
    let mut s = prefix.clone();
    proof {
        reveal_strlit("/");
    }
    s.append("/");
    s.append(name.as_str());
    assert(s@ =~= branch_name_of(prefix@, name@));
    if branch_name_accepted(s.as_str()) {
        Ok(s)
    } else {
        Err(NameError::InvalidBranchName)
    }
}

/// Where the last `/`-separated segment of `s` starts.
pub open spec fn last_segment_start(s: Seq<char>) -> int
    decreases s.len(),
{
    if s.len() == 0 {
        0
    } else if s.last() == '/' {
        s.len() as int
    } else {
        last_segment_start(s.drop_last())
    }
}

/// What follows the last `/` of `s`; all of `s` when it holds none.
pub open spec fn last_segment(s: Seq<char>) -> Seq<char> {
    s.subrange(last_segment_start(s), s.len() as int)
}

proof fn lemma_last_segment_start_bounds(s: Seq<char>)
    ensures
        0 <= last_segment_start(s) <= s.len(),
    decreases s.len(),
{
    if s.len() > 0 && s.last() != '/' {
        lemma_last_segment_start_bounds(s.drop_last());
    }
}

/// What follows the last `/` of `s`.
pub fn last_segment_of(s: &String) -> (r: String)
    ensures
        r@ == last_segment(s@),
{
    let t = s.as_str();
    let n = t.unicode_len();
    let mut j: usize = n;
    assert(s@.subrange(0, n as int) =~= s@);
    while j > 0 && t.get_char(j - 1) != '/'
        invariant
            j <= n,
            n == t@.len(),
            t@ == s@,
            last_segment_start(s@) == last_segment_start(s@.subrange(0, j as int)),
        decreases j,
    {
        assert(s@.subrange(0, j - 1) =~= s@.subrange(0, j as int).drop_last());
        j = j - 1;
    }
    proof {
        lemma_last_segment_start_bounds(s@);
        if j == 0 {
            assert(s@.subrange(0, 0).len() == 0);
        } else {
            assert(s@.subrange(0, j as int).last() == '/');
        }
    }
    String::from_str(t.substring_char(j, n))
}

} // verus!
