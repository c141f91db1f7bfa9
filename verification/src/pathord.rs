//! The order of qualified paths (package, namespaces, name), field by field
//! as a derived `Ord` orders them, with lists of names ordered
//! lexicographically.
use vstd::prelude::*;
use crate::toks::strings_view;
use crate::ordmap::{Order, compare_str, seq_lt, lemma_lt_irreflexive, lemma_lt_asymmetric, lemma_lt_transitive, lemma_lt_total};

verus! {

/// `a` comes before `b` at index `k`: they agree before `k`, and there `a`
/// ends while `b` goes on, or `a` has the smaller name.
pub open spec fn names_lt_at(a: Seq<Seq<char>>, b: Seq<Seq<char>>, k: int) -> bool {
    &&& 0 <= k <= a.len()
    &&& k <= b.len()
    &&& forall|j: int| 0 <= j < k ==> a[j] == b[j]
    &&& ((k == a.len() && k < b.len()) || (k < a.len() && k < b.len() && seq_lt(a[k], b[k])))
}

/// Lexicographic order of lists of names.
pub open spec fn names_lt(a: Seq<Seq<char>>, b: Seq<Seq<char>>) -> bool {
    exists|k: int| names_lt_at(a, b, k)
}

pub proof fn lemma_names_lt_asymmetric(a: Seq<Seq<char>>, b: Seq<Seq<char>>)
    requires
        names_lt(a, b),
    ensures
        !names_lt(b, a),
        a != b,
{
    let k1 = choose|k: int| names_lt_at(a, b, k);
    if k1 < a.len() {
        lemma_lt_asymmetric(a[k1], b[k1]);
    }
    if names_lt(b, a) {
        let k2 = choose|k: int| names_lt_at(b, a, k);
        if k1 < k2 {
            assert(b[k1] == a[k1]);
            lemma_lt_irreflexive(a[k1]);
        } else if k2 < k1 {
            assert(a[k2] == b[k2]);
            lemma_lt_irreflexive(b[k2]);
        } else if k1 < a.len() && k1 < b.len() {
            lemma_lt_asymmetric(a[k1], b[k1]);
        }
    }
    if a == b {
        if k1 < a.len() {
            lemma_lt_irreflexive(a[k1]);
        }
    }
}

pub proof fn lemma_names_lt_transitive(a: Seq<Seq<char>>, b: Seq<Seq<char>>, c: Seq<Seq<char>>)
    requires
        names_lt(a, b),
        names_lt(b, c),
    ensures
        names_lt(a, c),
{
    let k1 = choose|k: int| names_lt_at(a, b, k);
    let k2 = choose|k: int| names_lt_at(b, c, k);
    if k1 < k2 {
        assert(names_lt_at(a, c, k1));
    } else if k2 < k1 {
        assert(names_lt_at(a, c, k2));
    } else {
        if k1 < a.len() {
            lemma_lt_transitive(a[k1], b[k1], c[k1]);
        }
        assert(names_lt_at(a, c, k1));
    }
}

pub proof fn lemma_names_lt_total(a: Seq<Seq<char>>, b: Seq<Seq<char>>)
    ensures
        names_lt(a, b) || a == b || names_lt(b, a),
    decreases a.len(),
{
    if a.len() == 0 {
        if b.len() > 0 {
            assert(names_lt_at(a, b, 0));
        } else {
            assert(a =~= b);
        }
    } else if b.len() == 0 {
        assert(names_lt_at(b, a, 0));
    } else if a[0] != b[0] {
        lemma_lt_total(a[0], b[0]);
        if seq_lt(a[0], b[0]) {
            assert(names_lt_at(a, b, 0));
        } else {
            assert(names_lt_at(b, a, 0));
        }
    } else {
        lemma_names_lt_total(a.skip(1), b.skip(1));
        if names_lt(a.skip(1), b.skip(1)) {
            let k = choose|k: int| names_lt_at(a.skip(1), b.skip(1), k);
            assert forall|j: int| 0 <= j < k + 1 implies a[j] == b[j] by {
                if j > 0 {
                    assert(a.skip(1)[j - 1] == b.skip(1)[j - 1]);
                }
            }
            assert(names_lt_at(a, b, k + 1));
        } else if a.skip(1) == b.skip(1) {
            assert(a =~= b) by {
                assert forall|j: int| 0 <= j < a.len() implies a[j] == b[j] by {
                    if j > 0 {
                        assert(a.skip(1)[j - 1] == b.skip(1)[j - 1]);
                    }
                }
            }
        } else {
            let k = choose|k: int| names_lt_at(b.skip(1), a.skip(1), k);
            assert forall|j: int| 0 <= j < k + 1 implies b[j] == a[j] by {
                if j > 0 {
                    assert(b.skip(1)[j - 1] == a.skip(1)[j - 1]);
                }
            }
            assert(names_lt_at(b, a, k + 1));
        }
    }
}

pub open spec fn names_order(a: Seq<Seq<char>>, b: Seq<Seq<char>>) -> Order {
    if names_lt(a, b) {
        Order::Less
    } else if a == b {
        Order::Equal
    } else {
        Order::Greater
    }
}

/// Compares two lists of names.
pub fn compare_names(a: &Vec<String>, b: &Vec<String>) -> (r: Order)
    ensures
        r == names_order(strings_view(a@), strings_view(b@)),
        r is Greater ==> names_lt(strings_view(b@), strings_view(a@)),
{
    let ghost av = strings_view(a@);
    let ghost bv = strings_view(b@);
    let mut k: usize = 0;
    while k < a.len() && k < b.len()
        invariant
            av == strings_view(a@),
            bv == strings_view(b@),
            k <= a@.len(),
            k <= b@.len(),
            forall|j: int| 0 <= j < k ==> av[j] == bv[j],
        decreases a@.len() - k,
    {
        match compare_str(&a[k], &b[k]) {
            Order::Less => {
                assert(names_lt_at(av, bv, k as int));
                return Order::Less;
            },
            Order::Greater => {
                assert(names_lt_at(bv, av, k as int));
                proof { lemma_names_lt_asymmetric(bv, av); }
                return Order::Greater;
            },
            Order::Equal => {},
        }
        k += 1;
    }
    if k == a.len() && k == b.len() {
        assert(av =~= bv);
        proof {
            if names_lt(av, bv) {
                lemma_names_lt_asymmetric(av, bv);
            }
        }
        Order::Equal
    } else if k == a.len() {
        assert(names_lt_at(av, bv, k as int));
        Order::Less
    } else {
        assert(names_lt_at(bv, av, k as int));
        proof { lemma_names_lt_asymmetric(bv, av); }
        Order::Greater
    }
}

/// A qualified path: package, namespaces, name.
pub type PathV = (Seq<char>, Seq<Seq<char>>, Seq<char>);

/// Paths ordered by package, then namespaces, then name.
pub open spec fn path_lt(a: PathV, b: PathV) -> bool {
    ||| seq_lt(a.0, b.0)
    ||| (a.0 == b.0 && names_lt(a.1, b.1))
    ||| (a.0 == b.0 && a.1 == b.1 && seq_lt(a.2, b.2))
}

pub proof fn lemma_path_lt_irreflexive(a: PathV)
    ensures
        !path_lt(a, a),
{
    lemma_lt_irreflexive(a.0);
    lemma_lt_irreflexive(a.2);
    if names_lt(a.1, a.1) {
        lemma_names_lt_asymmetric(a.1, a.1);
    }
}

pub proof fn lemma_path_lt_asymmetric(a: PathV, b: PathV)
    requires
        path_lt(a, b),
    ensures
        !path_lt(b, a),
        a != b,
{
    lemma_path_lt_irreflexive(a);
    if seq_lt(a.0, b.0) {
        lemma_lt_asymmetric(a.0, b.0);
    } else if a.0 == b.0 && names_lt(a.1, b.1) {
        lemma_lt_irreflexive(a.0);
        lemma_names_lt_asymmetric(a.1, b.1);
    } else {
        lemma_lt_irreflexive(a.0);
        lemma_lt_asymmetric(a.2, b.2);
        if names_lt(b.1, a.1) {
            lemma_names_lt_asymmetric(b.1, a.1);
        }
    }
}

pub proof fn lemma_path_lt_transitive(a: PathV, b: PathV, c: PathV)
    requires
        path_lt(a, b),
        path_lt(b, c),
    ensures
        path_lt(a, c),
{
    if seq_lt(a.0, b.0) && seq_lt(b.0, c.0) {
        lemma_lt_transitive(a.0, b.0, c.0);
    } else if seq_lt(a.0, b.0) {
    } else if seq_lt(b.0, c.0) {
    } else if names_lt(a.1, b.1) && names_lt(b.1, c.1) {
        lemma_names_lt_transitive(a.1, b.1, c.1);
    } else if names_lt(a.1, b.1) {
    } else if names_lt(b.1, c.1) {
    } else {
        lemma_lt_transitive(a.2, b.2, c.2);
    }
}

pub proof fn lemma_path_lt_total(a: PathV, b: PathV)
    ensures
        path_lt(a, b) || a == b || path_lt(b, a),
{
    lemma_lt_total(a.0, b.0);
    lemma_names_lt_total(a.1, b.1);
    lemma_lt_total(a.2, b.2);
}

pub open spec fn path_order(a: PathV, b: PathV) -> Order {
    if path_lt(a, b) {
        Order::Less
    } else if a == b {
        Order::Equal
    } else {
        Order::Greater
    }
}

/// Compares two paths given by their parts.
pub fn compare_paths(ap: &String, ans: &Vec<String>, an: &String, bp: &String, bns: &Vec<String>, bn: &String) -> (r: Order)
    ensures
        r == path_order((ap@, strings_view(ans@), an@), (bp@, strings_view(bns@), bn@)),
        r is Greater ==> path_lt((bp@, strings_view(bns@), bn@), (ap@, strings_view(ans@), an@)),
{
    let ghost a: PathV = (ap@, strings_view(ans@), an@);
    let ghost b: PathV = (bp@, strings_view(bns@), bn@);
    proof {
        lemma_path_lt_total(a, b);
        if path_lt(a, b) {
            lemma_path_lt_asymmetric(a, b);
        }
        if path_lt(b, a) {
            lemma_path_lt_asymmetric(b, a);
        }
    }
    match compare_str(ap, bp) {
        Order::Less => Order::Less,
        Order::Greater => {
            proof { lemma_lt_asymmetric(b.0, a.0); }
            Order::Greater
        },
        Order::Equal => {
            proof { lemma_lt_irreflexive(a.0); }
            match compare_names(ans, bns) {
                Order::Less => Order::Less,
                Order::Greater => {
                    proof { lemma_names_lt_asymmetric(b.1, a.1); }
                    Order::Greater
                },
                Order::Equal => {
                    proof {
                        if names_lt(a.1, b.1) {
                            lemma_names_lt_asymmetric(a.1, b.1);
                        }
                    }
                    match compare_str(an, bn) {
                        Order::Less => Order::Less,
                        Order::Greater => {
                            proof { lemma_lt_asymmetric(b.2, a.2); }
                            Order::Greater
                        },
                        Order::Equal => Order::Equal,
                    }
                },
            }
        },
    }
}

} // verus!
