use crate::graph::{resolve_all, PersonGraph};
use vstd::prelude::*;

verus! {

/// A non-owning reference to a person held by a `PersonGraph`.
///
/// Resolving it yields the person while some holder still owns it, and
/// nothing once the last holder has released it.
#[derive(Clone, Copy, Debug, PartialEq, Eq, Structural)]
pub struct PersonRef {
    pub id: usize,
}

/// The relations of a person: an ordered sequence of non-owning references.
pub type Family = Vec<PersonRef>;

/// An individual with an age, a name, and non-owning relations to parents
/// and children.
#[derive(Debug)]
pub struct Person {
    age: u8,
    name: String,
    parents: Family,
    children: Family,
}

/// What a person holds, as mathematical values.
pub struct PersonView {
    pub age: u8,
    pub name: Seq<char>,
    pub parents: Seq<PersonRef>,
    pub children: Seq<PersonRef>,
}

/// The decimal digit `d` as a character.
pub open spec fn digit_char(d: nat) -> char
    recommends
        d < 10,
{
    seq!['0', '1', '2', '3', '4', '5', '6', '7', '8', '9'][d as int]
}

/// `n` written in decimal, without leading zeros.
pub open spec fn decimal(n: nat) -> Seq<char>
    decreases n,
{
    if n < 10 {
        seq![digit_char(n)]
    } else {
        decimal(n / 10) + seq![digit_char(n % 10)]
    }
}

/// The display form of a person: `Person <name, age>`.
pub open spec fn display_of(p: PersonView) -> Seq<char> {
    "Person <"@ + p.name + ", "@ + decimal(p.age as nat) + ">"@
}

/// The number that a string of decimal digits stands for.
pub open spec fn numeral_value(s: Seq<char>) -> nat
    decreases s.len(),
{
    if s.len() == 0 {
        0
    } else {
        numeral_value(s.drop_last()) * 10 + ((s.last() as u32) - ('0' as u32)) as nat
    }
}

/// `decimal(n)` is a numeral for `n`: only digits, and no leading zero.
pub proof fn lemma_decimal_numeral(n: nat)
    ensures
        numeral_value(decimal(n)) == n,
        forall|i: int| 0 <= i < decimal(n).len() ==> '0' <= #[trigger] decimal(n)[i] <= '9',
        decimal(n)[0] == '0' ==> n == 0,
    decreases n,
{
    let ds = seq!['0', '1', '2', '3', '4', '5', '6', '7', '8', '9'];
    assert(forall|d: int| 0 <= d < 10 ==> (#[trigger] ds[d]) as u32 == '0' as u32 + d) by {
        assert(ds[0] == '0' && ds[1] == '1' && ds[2] == '2' && ds[3] == '3' && ds[4] == '4');
        assert(ds[5] == '5' && ds[6] == '6' && ds[7] == '7' && ds[8] == '8' && ds[9] == '9');
    }
    if n < 10 {
        assert(decimal(n).drop_last() =~= Seq::<char>::empty());
        assert(decimal(n).last() == ds[n as int]);
        assert(numeral_value(decimal(n).drop_last()) == 0);
        assert(numeral_value(decimal(n)) == numeral_value(decimal(n).drop_last()) * 10 + n);
    } else {
        lemma_decimal_numeral(n / 10);
        let s = decimal(n);
        assert(s.drop_last() =~= decimal(n / 10));
        assert(s.last() == digit_char(n % 10));
        assert((s.last() as u32) - ('0' as u32) == n % 10);
        assert(n == (n / 10) * 10 + n % 10) by (nonlinear_arith);
        assert(numeral_value(s) == numeral_value(decimal(n / 10)) * 10 + n % 10);
        assert forall|i: int| 0 <= i < s.len() implies '0' <= #[trigger] s[i] <= '9' by {
            if i < s.len() - 1 {
                assert(s[i] == decimal(n / 10)[i]);
            }
        }
    }
}

/// A new person displays as `Person <`, its name, `, `, its age as a
/// decimal numeral, and `>`; its relations play no part.
pub proof fn lemma_display_of_new(age: u8, name: Seq<char>, p: PersonView)
    requires
        p.age == age,
        p.name == name,
    ensures
        display_of(p) == "Person <"@ + name + ", "@ + decimal(age as nat) + ">"@,
        numeral_value(decimal(age as nat)) == age,
{
    lemma_decimal_numeral(age as nat);
}

/// The one-character string of the decimal digit `d`.
fn digit_str(d: u8) -> (r: &'static str)
    requires
        d < 10,
    ensures
        r@ == seq![digit_char(d as nat)],
{
    let r = if d == 0 {
        proof { reveal_strlit("0"); }
        "0"
    } else if d == 1 {
        proof { reveal_strlit("1"); }
        "1"
    } else if d == 2 {
        proof { reveal_strlit("2"); }
        "2"
    } else if d == 3 {
        proof { reveal_strlit("3"); }
        "3"
    } else if d == 4 {
        proof { reveal_strlit("4"); }
        "4"
    } else if d == 5 {
        proof { reveal_strlit("5"); }
        "5"
    } else if d == 6 {
        proof { reveal_strlit("6"); }
        "6"
    } else if d == 7 {
        proof { reveal_strlit("7"); }
        "7"
    } else if d == 8 {
        proof { reveal_strlit("8"); }
        "8"
    } else {
        proof { reveal_strlit("9"); }
        "9"
    };
    assert(r@ =~= seq![digit_char(d as nat)]);
    r
}

/// Appends `n` in decimal to `s`.
fn push_decimal(s: &mut String, n: u8)
    ensures
        final(s)@ == old(s)@ + decimal(n as nat),
{
    proof {
        reveal_with_fuel(decimal, 3);
    }
    if n >= 100 {
        s.append(digit_str(n / 100));
        s.append(digit_str(n / 10 % 10));
        s.append(digit_str(n % 10));
        assert((n as nat) / 10 / 10 == (n as nat) / 100);
    } else if n >= 10 {
        s.append(digit_str(n / 10));
        s.append(digit_str(n % 10));
    } else {
        s.append(digit_str(n));
    }
    assert(final(s)@ =~= old(s)@ + decimal(n as nat));
}

impl View for Person {
    type V = PersonView;

    closed spec fn view(&self) -> PersonView {
        PersonView {
            age: self.age,
            name: self.name@,
            parents: self.parents@,
            children: self.children@,
        }
    }
}

impl Clone for Person {
    /// Copies age and name; the copy's relations point at the same people.
    fn clone(&self) -> (r: Self)
        ensures
            r@ == self@,
    {
        let r = Person {
            age: self.age,
            name: self.name.clone(),
            parents: self.parents.clone(),
            children: self.children.clone(),
        };
        proof {
            assert(r.parents@ =~= self.parents@);
            assert(r.children@ =~= self.children@);
        }
        r
    }
}

impl Person {
    /// A person with the given age and name and no relations.
    pub fn new(age: u8, name: String) -> (r: Person)
        ensures
            r@.age == age,
            r@.name == name@,
            r@.parents == Seq::<PersonRef>::empty(),
            r@.children == Seq::<PersonRef>::empty(),
    {
        let p: Family = Vec::new();
        let c: Family = Vec::new();
        Person { age, name, parents: p, children: c }
    }

    /// Appends a non-owning reference to a child.
    pub fn add_child(&mut self, c: PersonRef)
        ensures
            final(self)@.children == old(self)@.children.push(c),
            final(self)@.parents == old(self)@.parents,
            final(self)@.age == old(self)@.age,
            final(self)@.name == old(self)@.name,
    {
        self.children.push(c);
    }

    /// Appends a non-owning reference to a parent.
    pub fn add_parent(&mut self, p: PersonRef)
        ensures
            final(self)@.parents == old(self)@.parents.push(p),
            final(self)@.children == old(self)@.children,
            final(self)@.age == old(self)@.age,
            final(self)@.name == old(self)@.name,
    {
        self.parents.push(p);
    }

    /// The display form `Person <name, age>`.
    pub fn to_string(&self) -> (r: String)
        ensures
            r@ == display_of(self@),
    {
        let mut s = String::from_str("Person <");
        s.append(self.name.as_str());
        s.append(", ");
        push_decimal(&mut s, self.age);
        s.append(">");
        s
    }

    /// The children that some holder of `graph` still owns, each as it
    /// stands now, in the order they were added; the others are skipped.
    pub fn get_children(&self, graph: &PersonGraph) -> (r: Vec<Person>)
        ensures
            r@.map_values(|p: Person| p@) == resolve_all(graph@, self@.children),
    {
        let mut v: Vec<Person> = Vec::with_capacity(self.children.len());
        let mut i: usize = 0;
        while i < self.children.len()
            invariant
                i <= self.children@.len(),
                v@.map_values(|p: Person| p@) == resolve_all(graph@, self.children@.take(i as int)),
            decreases self.children@.len() - i,
        {
            let c = self.children[i];
            let ghost before = v@;
            match graph.resolve(c) {
                Some(p) => {
                    v.push(p.clone());
                    assert(v@.map_values(|p: Person| p@) =~= before.map_values(|p: Person| p@).push(p@));
                },
                None => {},
            }
            proof {
                let t = self.children@.take(i + 1);
                assert(t.drop_last() =~= self.children@.take(i as int));
                assert(t.last() == c);
                crate::graph::lemma_resolve_all_push(graph@, self.children@.take(i as int), c);
            }
            i = i + 1;
        }
        proof {
            assert(self.children@.take(self.children@.len() as int) =~= self.children@);
        }
        v
    }
}

} // verus!
