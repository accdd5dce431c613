use vstd::prelude::*;
use vstd::string::*;

use crate::error::Error;

verus! {

/// How many names the persistence step tries before it gives up.
pub const MAX_ATTEMPTS: u64 = 10;

/// The decimal digit `d` (`0 <= d < 10`).
pub open spec fn digit_char(d: nat) -> char {
    seq!['0', '1', '2', '3', '4', '5', '6', '7', '8', '9'][d as int]
}

/// The decimal text of `n`, without leading zeros.
pub open spec fn decimal(n: nat) -> Seq<char>
    decreases n,
{
    if n < 10 {
        seq![digit_char(n)]
    } else {
        decimal(n / 10).push(digit_char(n % 10))
    }
}

/// The file name tried at attempt `count`: `name`, then `(count)` unless the
/// count is 0, then `.ext` unless the extension is empty.
pub open spec fn candidate(name: Seq<char>, count: nat, ext: Seq<char>) -> Seq<char> {
    name + (if count == 0 {
        Seq::<char>::empty()
    } else {
        seq!['('] + decimal(count) + seq![')']
    }) + (if ext.len() == 0 {
        Seq::<char>::empty()
    } else {
        seq!['.'] + ext
    })
}

/// The texts of a list of names.
pub open spec fn texts(v: Seq<String>) -> Seq<Seq<char>> {
    v.map_values(|s: String| s@)
}

/// The text of the decimal digit `d`.
fn digit_text(d: u64) -> (r: &'static str)
    requires
        d < 10,
    ensures
        r@ == seq![digit_char(d as nat)],
{
    let digits = "0123456789";
    proof {
        reveal_strlit("0123456789");
    }
    let r = digits.substring_char(d as usize, d as usize + 1);
    assert(r@ =~= seq![digit_char(d as nat)]);
    r
}

/// The decimal text of `n`.
fn decimal_text(n: u64) -> (r: String)
    ensures
        r@ == decimal(n as nat),
{
    let mut s = String::from_str(digit_text(n % 10));
    let mut m: u64 = n / 10;
    while m > 0
        invariant
            m > 0 ==> decimal(n as nat) == decimal(m as nat) + s@,
            m == 0 ==> decimal(n as nat) == s@,
        decreases m,
    {
        let ghost old_s = s@;
        let d = String::from_str(digit_text(m % 10));
        s = d.concat(s.as_str());
        proof {
            if m >= 10 {
                assert(decimal(m as nat) == decimal((m / 10) as nat).push(
                    digit_char((m % 10) as nat),
                ));
                assert(decimal(m as nat) + old_s =~= decimal((m / 10) as nat) + s@);
            } else {
                assert(decimal(m as nat) == seq![digit_char(m as nat)]);
                assert(decimal(m as nat) + old_s =~= s@);
            }
        }
        m = m / 10;
    }
    s
}

/// Whether `s` is one of `taken`.
fn is_taken(taken: &Vec<String>, s: &String) -> (r: bool)
    ensures
        r == texts(taken@).contains(s@),
{
    let mut i: usize = 0;
    while i < taken.len()
        invariant
            i <= taken@.len(),
            forall|j: int| 0 <= j < i ==> taken@[j]@ != s@,
        decreases taken@.len() - i,
    {
        if taken[i] == *s {
            assert(texts(taken@)[i as int] == s@);
            return true;
        }
        i = i + 1;
    }
    assert(!texts(taken@).contains(s@)) by {
        if texts(taken@).contains(s@) {
            let j = choose|j: int| 0 <= j < texts(taken@).len() && texts(taken@)[j] == s@;
            assert(taken@[j]@ == s@);
        }
    }
    false
}

/// The persistence step: commits staged bytes under a collision-free name in
/// the destination directory `dest`.
pub struct Persist {
    dest: String,
}

impl Persist {
    pub closed spec fn spec_dest(&self) -> Seq<char> {
        self.dest@
    }

    pub fn new(dest: String) -> (r: Persist)
        ensures
            r.spec_dest() == dest@,
    {
        Persist { dest }
    }

    /// The destination directory.
    pub fn dest(&self) -> (r: &str)
        ensures
            r@ == self.spec_dest(),
    {
        self.dest.as_str()
    }

    /// The file name tried at attempt `count`.
    pub fn build_name(name: &str, count: u64, ext: &str) -> (r: String)
        ensures
            r@ == candidate(name@, count as nat, ext@),
    {
        let mut s = String::from_str(name);
        if count >= 1 {
            let open = "(";
            let close = ")";
            proof {
                reveal_strlit("(");
                reveal_strlit(")");
            }
            s.append(open);
            s.append(decimal_text(count).as_str());
            s.append(close);
        }
        if !ext.is_empty() {
            let dot = ".";
            proof {
                reveal_strlit(".");
            }
            s.append(dot);
            s.append(ext);
        }
        assert(s@ =~= candidate(name@, count as nat, ext@));
        s
    }

    /// The first candidate name, in attempt order, that is not among
    /// `taken`, the names already found to exist. When all the bounded
    /// attempts are taken, the step is exhausted.
    pub fn fresh_name(name: &str, ext: &str, taken: &Vec<String>) -> (r: Result<String, Error>)
        ensures
            match r {
                Ok(s) => exists|k: nat|
                    #![trigger candidate(name@, k, ext@)]
                    k < MAX_ATTEMPTS && s@ == candidate(name@, k, ext@) && !texts(
                        taken@,
                    ).contains(s@) && forall|j: nat|
                        j < k ==> texts(taken@).contains(#[trigger] candidate(name@, j, ext@)),
                Err(e) => e == Error::PersistenceExhausted && forall|k: nat|
                    k < MAX_ATTEMPTS ==> texts(taken@).contains(
                        #[trigger] candidate(name@, k, ext@),
                    ),
            },
    {
        let mut count: u64 = 0;
        while count < MAX_ATTEMPTS
            invariant
                count <= MAX_ATTEMPTS,
                forall|j: nat| j < count ==> texts(taken@).contains(#[trigger] candidate(name@, j, ext@)),
            decreases MAX_ATTEMPTS - count,
        {
            let s = Persist::build_name(name, count, ext);
            if !is_taken(taken, &s) {
                return Ok(s);
            }
            count = count + 1;
        }
        Err(Error::PersistenceExhausted)
    }
}

} // verus!
