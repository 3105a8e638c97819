//! The identifier allocator: one shared counter from which every widget
//! identifier and every variable name is drawn.
//!
//! A widget identifier is the parent's path plus `.r<N>`; a variable name is
//! `::var<N>`. Both kinds draw from the same counter, so any two names made
//! from different counter values differ — proved below from the decimal
//! representation: each name ends in `r` followed by the digits of `N`, and
//! the digit suffix pins `N` down.

use vstd::prelude::*;

verus! {

/// An ASCII decimal digit.
pub open spec fn is_digit(c: char) -> bool {
    0x30 <= c as u32 && c as u32 <= 0x39
}

/// The digit character for `d`, for `0 <= d < 10`.
pub open spec fn digit_char(d: int) -> char {
    if d == 0 {
        '0'
    } else if d == 1 {
        '1'
    } else if d == 2 {
        '2'
    } else if d == 3 {
        '3'
    } else if d == 4 {
        '4'
    } else if d == 5 {
        '5'
    } else if d == 6 {
        '6'
    } else if d == 7 {
        '7'
    } else if d == 8 {
        '8'
    } else {
        '9'
    }
}

/// The decimal digits of `n`, most significant first.
pub open spec fn dec_rep(n: nat) -> Seq<char>
    decreases n,
{
    if n < 10 {
        seq![digit_char(n as int)]
    } else {
        dec_rep(n / 10).push(digit_char((n % 10) as int))
    }
}

pub proof fn lemma_dec_rep_len(n: nat)
    ensures
        dec_rep(n).len() >= 1,
    decreases n,
{
    if n >= 10 {
        lemma_dec_rep_len(n / 10);
    }
}

pub proof fn lemma_dec_rep_digits(n: nat)
    ensures
        forall|i: int| 0 <= i < dec_rep(n).len() ==> is_digit(#[trigger] dec_rep(n)[i]),
    decreases n,
{
    assert(is_digit(digit_char((n % 10) as int)));
    if n < 10 {
        assert(n % 10 == n);
        assert(forall|i: int|
            0 <= i < dec_rep(n).len() ==> #[trigger] dec_rep(n)[i] == digit_char(n as int));
    } else {
        lemma_dec_rep_digits(n / 10);
        assert forall|i: int| 0 <= i < dec_rep(n).len() implies is_digit(
            #[trigger] dec_rep(n)[i],
        ) by {
            if i < dec_rep(n).len() - 1 {
                assert(dec_rep(n)[i] == dec_rep(n / 10)[i]);
            } else {
                assert(dec_rep(n)[i] == digit_char((n % 10) as int));
            }
        }
    }
}

/// Distinct numbers have distinct decimal representations.
pub proof fn lemma_dec_rep_injective(a: nat, b: nat)
    requires
        dec_rep(a) == dec_rep(b),
    ensures
        a == b,
    decreases a + b,
{
    lemma_dec_rep_len(a);
    lemma_dec_rep_len(b);
    if a >= 10 && b >= 10 {
        assert(dec_rep(a).last() == digit_char((a % 10) as int));
        assert(dec_rep(b).last() == digit_char((b % 10) as int));
        assert(a % 10 == b % 10);
        assert(dec_rep(a / 10).push(digit_char((a % 10) as int)).drop_last() =~= dec_rep(a / 10));
        assert(dec_rep(b / 10).push(digit_char((b % 10) as int)).drop_last() =~= dec_rep(b / 10));
        lemma_dec_rep_injective(a / 10, b / 10);
        vstd::arithmetic::div_mod::lemma_fundamental_div_mod(a as int, 10);
        vstd::arithmetic::div_mod::lemma_fundamental_div_mod(b as int, 10);
    } else if a >= 10 {
        lemma_dec_rep_len(a / 10);
        assert(dec_rep(a).len() >= 2);
        assert(false);
    } else if b >= 10 {
        lemma_dec_rep_len(b / 10);
        assert(dec_rep(b).len() >= 2);
        assert(false);
    } else {
        assert(dec_rep(a)[0] == digit_char(a as int));
        assert(dec_rep(b)[0] == digit_char(b as int));
    }
}

/// A string that ends in a non-digit followed by the digits of some number
/// determines that number: the digit suffix cannot be read in two ways.
pub proof fn lemma_digit_suffix_determines(p1: Seq<char>, n1: nat, p2: Seq<char>, n2: nat)
    requires
        p1.len() > 0,
        !is_digit(p1.last()),
        p2.len() > 0,
        !is_digit(p2.last()),
        p1 + dec_rep(n1) == p2 + dec_rep(n2),
    ensures
        n1 == n2,
        p1 == p2,
{
    let d1 = dec_rep(n1);
    let d2 = dec_rep(n2);
    lemma_dec_rep_len(n1);
    lemma_dec_rep_len(n2);
    lemma_dec_rep_digits(n1);
    lemma_dec_rep_digits(n2);
    let s = p1 + d1;
    assert(s.len() == p1.len() + d1.len());
    assert(s.len() == p2.len() + d2.len());
    if d1.len() > d2.len() {
        let pos = p2.len() - 1;
        assert((p2 + d2)[pos] == p2.last());
        assert(pos >= p1.len());
        assert(s[pos] == d1[pos - p1.len()]);
        assert(false);
    } else if d1.len() < d2.len() {
        let pos = p1.len() - 1;
        assert(s[pos] == p1.last());
        assert(pos >= p2.len());
        assert((p2 + d2)[pos] == d2[pos - p2.len()]);
        assert(false);
    } else {
        assert(d1 =~= d2) by {
            assert forall|i: int| 0 <= i < d1.len() implies d1[i] == d2[i] by {
                assert(s[p1.len() + i] == d1[i]);
                assert(s[p2.len() + i] == d2[i]);
            }
        }
        lemma_dec_rep_injective(n1, n2);
        assert(p1 =~= p2) by {
            assert forall|i: int| 0 <= i < p1.len() implies p1[i] == p2[i] by {
                assert(s[i] == p1[i]);
                assert(s[i] == p2[i]);
            }
        }
    }
}

/// The widget identifier formed for counter value `n` under `parent`.
pub open spec fn wid_of(parent: Seq<char>, n: nat) -> Seq<char> {
    if parent == seq!['.'] {
        seq!['.', 'r'] + dec_rep(n)
    } else {
        parent + seq!['.', 'r'] + dec_rep(n)
    }
}

/// The variable name formed for counter value `n`.
pub open spec fn var_of(n: nat) -> Seq<char> {
    seq![':', ':', 'v', 'a', 'r'] + dec_rep(n)
}

/// The path part of a widget identifier, before the digits.
pub open spec fn wid_prefix(parent: Seq<char>) -> Seq<char> {
    if parent == seq!['.'] {
        seq!['.', 'r']
    } else {
        parent + seq!['.', 'r']
    }
}

/// Widget identifiers drawn at different counter values are distinct,
/// whatever their parents.
pub proof fn lemma_widget_ids_distinct(p1: Seq<char>, n1: nat, p2: Seq<char>, n2: nat)
    requires
        n1 != n2,
    ensures
        wid_of(p1, n1) != wid_of(p2, n2),
{
    let q1 = wid_prefix(p1);
    let q2 = wid_prefix(p2);
    assert(wid_of(p1, n1) == q1 + dec_rep(n1));
    assert(wid_of(p2, n2) == q2 + dec_rep(n2));
    assert(q1.last() == 'r');
    assert(q2.last() == 'r');
    if wid_of(p1, n1) == wid_of(p2, n2) {
        lemma_digit_suffix_determines(q1, n1, q2, n2);
        assert(false);
    }
}

/// Variable names drawn at different counter values are distinct.
pub proof fn lemma_var_names_distinct(n1: nat, n2: nat)
    requires
        n1 != n2,
    ensures
        var_of(n1) != var_of(n2),
{
    let q = seq![':', ':', 'v', 'a', 'r'];
    if var_of(n1) == var_of(n2) {
        lemma_digit_suffix_determines(q, n1, q, n2);
        assert(false);
    }
}

/// A widget identifier never collides with a variable name, even for the
/// same counter value: the two name spaces are disjoint.
pub proof fn lemma_wid_var_disjoint(p: Seq<char>, n1: nat, n2: nat)
    ensures
        wid_of(p, n1) != var_of(n2),
{
    let q1 = wid_prefix(p);
    let q2 = seq![':', ':', 'v', 'a', 'r'];
    assert(q1.last() == 'r');
    if wid_of(p, n1) == var_of(n2) {
        lemma_digit_suffix_determines(q1, n1, q2, n2);
        assert(q1 == q2);
        assert(q1[q1.len() - 2] == '.');
        assert(q2[3] == 'a');
        assert(false);
    }
}

/// The digit string for `d`, for `0 <= d < 10`.
fn digit_str(d: u64) -> (r: &'static str)
    requires
        d < 10,
    ensures
        r@ == seq![digit_char(d as int)],
{
    if d == 0 {
        proof {
            reveal_strlit("0");
            assert("0"@ =~= seq![digit_char(0int)]);
        }
        "0"
    } else if d == 1 {
        proof {
            reveal_strlit("1");
            assert("1"@ =~= seq![digit_char(1int)]);
        }
        "1"
    } else if d == 2 {
        proof {
            reveal_strlit("2");
            assert("2"@ =~= seq![digit_char(2int)]);
        }
        "2"
    } else if d == 3 {
        proof {
            reveal_strlit("3");
            assert("3"@ =~= seq![digit_char(3int)]);
        }
        "3"
    } else if d == 4 {
        proof {
            reveal_strlit("4");
            assert("4"@ =~= seq![digit_char(4int)]);
        }
        "4"
    } else if d == 5 {
        proof {
            reveal_strlit("5");
            assert("5"@ =~= seq![digit_char(5int)]);
        }
        "5"
    } else if d == 6 {
        proof {
            reveal_strlit("6");
            assert("6"@ =~= seq![digit_char(6int)]);
        }
        "6"
    } else if d == 7 {
        proof {
            reveal_strlit("7");
            assert("7"@ =~= seq![digit_char(7int)]);
        }
        "7"
    } else if d == 8 {
        proof {
            reveal_strlit("8");
            assert("8"@ =~= seq![digit_char(8int)]);
        }
        "8"
    } else {
        proof {
            reveal_strlit("9");
            assert("9"@ =~= seq![digit_char(9int)]);
        }
        "9"
    }
}

/// Writes `n` in decimal, matching `dec_rep`.
pub fn u64_to_dec(n: u64) -> (r: String)
    ensures
        r@ == dec_rep(n as nat),
    decreases n,
{
    if n < 10 {
        digit_str(n).to_owned()
    } else {
        let mut s = u64_to_dec(n / 10);
        s.append(digit_str(n % 10));
        proof {
            assert(s@ =~= dec_rep((n / 10) as nat).push(digit_char((n % 10) as int)));
        }
        s
    }
}

/// `x` is a name the allocator can form at counter value `k`: a widget
/// identifier under some parent, or the variable name.
pub open spec fn name_at(x: Seq<char>, k: nat) -> bool {
    (exists|p: Seq<char>| x == wid_of(p, k)) || x == var_of(k)
}

/// The process-wide counter behind widget identifiers and variable names,
/// with the ghost set of every name it has handed out: each fresh name is
/// guaranteed distinct from all of them, so the names are pairwise distinct
/// across the allocator's lifetime and never reused.
pub struct IdAllocator {
    next_id: u64,
    names: Ghost<Set<Seq<char>>>,
}

impl IdAllocator {
    /// The number of identifiers drawn so far.
    pub closed spec fn counter(&self) -> nat {
        self.next_id as nat
    }

    /// Every name handed out so far.
    pub closed spec fn issued(&self) -> Set<Seq<char>> {
        self.names@
    }

    /// Every issued name was formed at an already-used counter value.
    pub closed spec fn inv(&self) -> bool {
        forall|x: Seq<char>|
            #[trigger] self.names@.contains(x) ==> exists|k: nat|
                1 <= k <= self.counter() && name_at(x, k)
    }

    pub fn new() -> (r: IdAllocator)
        ensures
            r.inv(),
            r.counter() == 0,
            r.issued() == Set::<Seq<char>>::empty(),
    {
        IdAllocator { next_id: 0, names: Ghost(Set::empty()) }
    }

    /// Returns a new widget identifier under `parent`: `.r<N>` when the
    /// parent is the root path `.`, and `<parent>.r<N>` otherwise, where
    /// `N` is the freshly incremented counter — strictly increasing call
    /// over call, and the name differs from every name this allocator has
    /// ever returned.
    pub fn next_wid(&mut self, parent: &str) -> (r: String)
        requires
            old(self).inv(),
            old(self).counter() < 0xffff_ffff_ffff_ffff,
        ensures
            final(self).inv(),
            final(self).counter() == old(self).counter() + 1,
            r@ == wid_of(parent@, final(self).counter()),
            !old(self).issued().contains(r@),
            final(self).issued() == old(self).issued().insert(r@),
    {
        self.next_id = self.next_id + 1;
        let num = u64_to_dec(self.next_id);
        let root = parent.unicode_len() == 1 && parent.get_char(0) == '.';
        proof {
            if root {
                assert(parent@ =~= seq!['.']);
            } else {
                if parent@ == seq!['.'] {
                    assert(parent@.len() == 1 && parent@[0] == '.');
                    assert(false);
                }
            }
            reveal_strlit(".r");
            assert(".r"@ =~= seq!['.', 'r']);
        }
        let s = if root {
            let mut s = String::from_str(".r");
            s.append(num.as_str());
            proof {
                assert(s@ =~= wid_of(parent@, self.counter()));
            }
            s
        } else {
            let mut s = parent.to_owned();
            s.append(".r");
            s.append(num.as_str());
            proof {
                assert(s@ =~= wid_of(parent@, self.counter()));
            }
            s
        };
        proof {
            let c = self.counter();
            assert(!old(self).names@.contains(s@)) by {
                if old(self).names@.contains(s@) {
                    let k = choose|k: nat| 1 <= k <= old(self).counter() && name_at(s@, k);
                    if exists|p: Seq<char>| s@ == wid_of(p, k) {
                        let p = choose|p: Seq<char>| s@ == wid_of(p, k);
                        lemma_widget_ids_distinct(p, k, parent@, c);
                    } else {
                        lemma_wid_var_disjoint(parent@, c, k);
                    }
                }
            }
            self.names@ = self.names@.insert(s@);
            assert forall|x: Seq<char>| #[trigger] self.names@.contains(x) implies exists|k: nat|
                1 <= k <= self.counter() && name_at(x, k) by {
                if x == s@ {
                    assert(1 <= c <= self.counter() && name_at(x, c));
                } else {
                    assert(old(self).names@.contains(x));
                }
            }
        }
        s
    }

    /// Returns a new variable name `::var<N>`, `N` being the freshly
    /// incremented shared counter; the name differs from every name this
    /// allocator has ever returned, widget identifiers included.
    pub fn next_var(&mut self) -> (r: String)
        requires
            old(self).inv(),
            old(self).counter() < 0xffff_ffff_ffff_ffff,
        ensures
            final(self).inv(),
            final(self).counter() == old(self).counter() + 1,
            r@ == var_of(final(self).counter()),
            !old(self).issued().contains(r@),
            final(self).issued() == old(self).issued().insert(r@),
    {
        self.next_id = self.next_id + 1;
        let num = u64_to_dec(self.next_id);
        let mut s = String::from_str("::var");
        s.append(num.as_str());
        proof {
            reveal_strlit("::var");
            assert("::var"@ =~= seq![':', ':', 'v', 'a', 'r']);
            assert(s@ =~= var_of(self.counter()));
            let c = self.counter();
            assert(!old(self).names@.contains(s@)) by {
                if old(self).names@.contains(s@) {
                    let k = choose|k: nat| 1 <= k <= old(self).counter() && name_at(s@, k);
                    if exists|p: Seq<char>| s@ == wid_of(p, k) {
                        let p = choose|p: Seq<char>| s@ == wid_of(p, k);
                        lemma_wid_var_disjoint(p, k, c);
                    } else {
                        lemma_var_names_distinct(k, c);
                    }
                }
            }
            self.names@ = self.names@.insert(s@);
            assert forall|x: Seq<char>| #[trigger] self.names@.contains(x) implies exists|k: nat|
                1 <= k <= self.counter() && name_at(x, k) by {
                if x == s@ {
                    assert(1 <= c <= self.counter() && name_at(x, c));
                } else {
                    assert(old(self).names@.contains(x));
                }
            }
        }
        s
    }

    /// The counter value last handed out.
    pub fn current_id(&self) -> (r: u64)
        ensures
            r as nat == self.counter(),
    {
        self.next_id
    }
}

} // verus!
