//! The propagation environment: a mapping from assignees to known literal
//! expressions, local to one function body.
//!
//! The environment only ever maps to fully literal expressions — a `Number`,
//! a boolean `Value`, or an array `Value` whose every element is a `Number` —
//! and it is only ever queried by key, never enumerated, so no iteration
//! order can leak into the pass's output.

use crate::error::Error;
use crate::field::FieldElement;
use crate::typed_absy::{
    assignee_eq, is_literal, FieldElementArrayExpression, FieldElementExpression, SpecArrayExpression,
    SpecAssignee, SpecExpression, SpecFieldExpression, TypedAssignee, TypedExpression, Variable,
    lemma_view_fe_seq, view_fe_seq,
};
use vstd::prelude::*;

verus! {

/// The key model of an entry.
pub open spec fn key_at(s: Seq<(TypedAssignee, TypedExpression)>, i: int) -> SpecAssignee {
    s[i].0@
}

/// The value model of an entry.
pub open spec fn val_at(s: Seq<(TypedAssignee, TypedExpression)>, i: int) -> SpecExpression {
    s[i].1@
}

/// Whether some entry has the given key model.
pub open spec fn has_key(s: Seq<(TypedAssignee, TypedExpression)>, k: SpecAssignee) -> bool {
    exists|i: int| 0 <= i < s.len() && key_at(s, i) == k
}

/// Whether the entries' key models are pairwise distinct.
pub open spec fn unique_keys(s: Seq<(TypedAssignee, TypedExpression)>) -> bool {
    forall|i: int, j: int| 0 <= i < j < s.len() ==> key_at(s, i) != key_at(s, j)
}

/// Whether every entry's value model is a literal.
pub open spec fn literal_values(s: Seq<(TypedAssignee, TypedExpression)>) -> bool {
    forall|i: int| 0 <= i < s.len() ==> is_literal(#[trigger] val_at(s, i))
}

/// The mapping the entries stand for: later entries overwrite earlier ones.
pub open spec fn entries_map(s: Seq<(TypedAssignee, TypedExpression)>) -> Map<
    SpecAssignee,
    SpecExpression,
>
    decreases s.len(),
{
    if s.len() == 0 {
        Map::empty()
    } else {
        entries_map(s.drop_last()).insert(key_at(s, s.len() - 1), val_at(s, s.len() - 1))
    }
}

/// A key is in the mapping exactly when some entry carries it.
proof fn lemma_entries_map_dom(s: Seq<(TypedAssignee, TypedExpression)>)
    ensures
        forall|k: SpecAssignee| #[trigger] entries_map(s).contains_key(k) <==> has_key(s, k),
    decreases s.len(),
{
    if s.len() > 0 {
        let d = s.drop_last();
        lemma_entries_map_dom(d);
        assert(entries_map(s) == entries_map(d).insert(key_at(s, s.len() - 1), val_at(
            s,
            s.len() - 1,
        )));
        assert(forall|i: int| 0 <= i < d.len() ==> #[trigger] d[i] == s[i]);
        assert forall|k: SpecAssignee| #[trigger] entries_map(s).contains_key(k) implies has_key(
            s,
            k,
        ) by {
            if k == key_at(s, s.len() - 1) {
                assert(key_at(s, s.len() - 1) == k);
            } else {
                let i = choose|i: int| 0 <= i < d.len() && key_at(d, i) == k;
                assert(key_at(s, i) == k);
            }
        }
        assert forall|k: SpecAssignee| has_key(s, k) implies #[trigger] entries_map(
            s,
        ).contains_key(k) by {
            let i = choose|i: int| 0 <= i < s.len() && key_at(s, i) == k;
            if i < s.len() - 1 {
                assert(key_at(d, i) == k);
            }
        }
    }
}

/// With pairwise distinct keys, each entry's key maps to that entry's value.
proof fn lemma_entries_map_val(s: Seq<(TypedAssignee, TypedExpression)>, i: int)
    requires
        unique_keys(s),
        0 <= i < s.len(),
    ensures
        entries_map(s).contains_key(key_at(s, i)),
        entries_map(s)[key_at(s, i)] == val_at(s, i),
    decreases s.len(),
{
    let d = s.drop_last();
    if i == s.len() - 1 {
    } else {
        assert(key_at(s, i) != key_at(s, s.len() - 1));
        assert(key_at(d, i) == key_at(s, i));
        assert(val_at(d, i) == val_at(s, i));
        assert(unique_keys(d)) by {
            assert(forall|x: int, y: int|
                0 <= x < y < d.len() ==> key_at(d, x) == key_at(s, x) && key_at(d, y) == key_at(
                    s,
                    y,
                ));
        }
        lemma_entries_map_val(d, i);
    }
}

/// The propagation environment of one function body. It is created empty,
/// mutated only during that function's traversal, and dropped at its exit.
pub struct Environment {
    entries: Vec<(TypedAssignee, TypedExpression)>,
}

impl View for Environment {
    type V = Map<SpecAssignee, SpecExpression>;

    closed spec fn view(&self) -> Map<SpecAssignee, SpecExpression> {
        entries_map(self.entries@)
    }
}

impl Environment {
    /// Well-formedness: keys are pairwise distinct and every bound value is
    /// a literal. Constructors establish it and every operation preserves it.
    pub closed spec fn wf(&self) -> bool {
        unique_keys(self.entries@) && literal_values(self.entries@)
    }
}

impl Environment {
    /// The empty environment.
    pub fn new() -> (r: Environment)
        ensures
            r.wf(),
            r@ == Map::<SpecAssignee, SpecExpression>::empty(),
    {
        Environment { entries: Vec::new() }
    }

    /// Every value a well-formed environment holds is a literal.
    pub proof fn lemma_literal_only(&self)
        requires
            self.wf(),
        ensures
            forall|k: SpecAssignee| #[trigger]
                self@.contains_key(k) ==> is_literal(self@[k]),
    {
        lemma_entries_map_dom(self.entries@);
        assert forall|k: SpecAssignee| #[trigger] self@.contains_key(k) implies is_literal(
            self@[k],
        ) by {
            let i = choose|i: int|
                0 <= i < self.entries@.len() && key_at(self.entries@, i) == k;
            lemma_entries_map_val(self.entries@, i);
        }
    }

    /// Looks an assignee up, handing back a copy of the bound literal.
    pub fn lookup(&self, a: &TypedAssignee) -> (r: Option<TypedExpression>)
        requires
            self.wf(),
        ensures
            match r {
                Some(e) => self@.contains_key(a@) && e@ == self@[a@] && is_literal(e@),
                None => !self@.contains_key(a@),
            },
    {
        proof {
            lemma_entries_map_dom(self.entries@);
        }
        let n = self.entries.len();
        let mut i: usize = 0;
        while i < n
            invariant
                self.wf(),
                n == self.entries@.len(),
                i <= n,
                forall|j: int| 0 <= j < i ==> key_at(self.entries@, j) != a@,
            decreases n - i,
        {
            if assignee_eq(&self.entries[i].0, a) {
                proof {
                    lemma_entries_map_val(self.entries@, i as int);
                }
                return Some(self.entries[i].1.clone());
            }
            i += 1;
        }
        proof {
            lemma_entries_map_dom(self.entries@);
            assert(!has_key(self.entries@, a@));
        }
        None
    }

    /// Binds an assignee to a literal, inserting or overwriting.
    pub fn bind(&mut self, a: TypedAssignee, e: TypedExpression)
        requires
            old(self).wf(),
            is_literal(e@),
        ensures
            final(self).wf(),
            final(self)@ == old(self)@.insert(a@, e@),
    {
        let ghost s0 = self.entries@;
        let n = self.entries.len();
        let mut i: usize = 0;
        while i < n
            invariant
                unique_keys(s0),
                literal_values(s0),
                is_literal(e@),
                n == self.entries@.len(),
                i <= n,
                self.entries@ == s0,
                s0 == old(self).entries@,
                forall|j: int| 0 <= j < i ==> key_at(s0, j) != a@,
            decreases n - i,
        {
            if assignee_eq(&self.entries[i].0, &a) {
                let removed = self.entries.remove(i);
                self.entries.insert(i, (a, e));
                proof {
                    let s1 = self.entries@;
                    assert(s1 =~= s0.update(i as int, (a, e)));
                    lemma_update_entry(s0, i as int, a, e);
                    assert forall|j: int| 0 <= j < s1.len() implies is_literal(
                        #[trigger] val_at(s1, j),
                    ) by {
                        if j != i {
                            assert(val_at(s1, j) == val_at(s0, j));
                        }
                    }
                }
                return ;
            }
            i += 1;
        }
        self.entries.push((a, e));
        proof {
            let s1 = self.entries@;
            assert(s1.drop_last() =~= s0);
            assert(key_at(s1, s1.len() - 1) == a@ && val_at(s1, s1.len() - 1) == e@);
            assert(unique_keys(s1)) by {
                assert(forall|j: int| 0 <= j < s0.len() ==> key_at(s1, j) == key_at(s0, j));
            }
            assert(literal_values(s1)) by {
                assert(forall|j: int| 0 <= j < s0.len() ==> val_at(s1, j) == val_at(s0, j));
            }
        }
    }

    /// Removes an assignee's binding, if any.
    pub fn invalidate(&mut self, a: &TypedAssignee)
        requires
            old(self).wf(),
        ensures
            final(self).wf(),
            final(self)@ == old(self)@.remove(a@),
    {
        proof {
            lemma_entries_map_dom(self.entries@);
        }
        let ghost s0 = self.entries@;
        let n = self.entries.len();
        let mut i: usize = 0;
        while i < n
            invariant
                unique_keys(s0),
                literal_values(s0),
                n == self.entries@.len(),
                i <= n,
                self.entries@ == s0,
                s0 == old(self).entries@,
                forall|j: int| 0 <= j < i ==> key_at(s0, j) != a@,
            decreases n - i,
        {
            if assignee_eq(&self.entries[i].0, a) {
                let removed = self.entries.remove(i);
                proof {
                    lemma_remove_entry(s0, i as int);
                }
                return ;
            }
            i += 1;
        }
        proof {
            lemma_entries_map_dom(s0);
            assert(!has_key(s0, a@));
            assert(entries_map(s0) =~= entries_map(s0).remove(a@));
        }
    }

    /// If the variable is bound to a literal array, replaces the element at
    /// the given index in place. An unbound variable is left untouched; an
    /// index at or beyond the array's size is `OutOfBounds`; a binding of any
    /// other shape is a `TypeInvariant` violation.
    pub fn update_array_element(
        &mut self,
        var: &Variable,
        index: &FieldElement,
        elem: &FieldElement,
    ) -> (r: Result<(), Error>)
        requires
            old(self).wf(),
        ensures
            final(self).wf(),
            ({
                let k = SpecAssignee::Identifier(var@);
                if !old(self)@.contains_key(k) {
                    r is Ok && final(self)@ == old(self)@
                } else {
                    match old(self)@[k] {
                        SpecExpression::FieldElementArray(SpecArrayExpression::Value(
                            size,
                            elems,
                        )) => {
                            if index@ < size {
                                r is Ok && final(self)@ == old(self)@.insert(
                                    k,
                                    SpecExpression::FieldElementArray(
                                        SpecArrayExpression::Value(
                                            size,
                                            elems.update(
                                                index@ as int,
                                                SpecFieldExpression::Number(elem@),
                                            ),
                                        ),
                                    ),
                                )
                            } else {
                                r == Err::<(), Error>(
                                    Error::OutOfBounds { index: (index@ as u64), size: (size as u64) },
                                ) && final(self)@ == old(self)@
                            }
                        },
                        _ => r == Err::<(), Error>(Error::TypeInvariant) && final(self)@ == old(
                            self,
                        )@,
                    }
                }
            }),
    {
        proof {
            lemma_entries_map_dom(self.entries@);
        }
        let key = TypedAssignee::Identifier(var.clone());
        let ghost s0 = self.entries@;
        let n = self.entries.len();
        let mut i: usize = 0;
        while i < n
            invariant
                unique_keys(s0),
                literal_values(s0),
                n == self.entries@.len(),
                i <= n,
                self.entries@ == s0,
                s0 == old(self).entries@,
                forall|j: int| 0 <= j < i ==> key_at(s0, j) != SpecAssignee::Identifier(var@),
                key@ == SpecAssignee::Identifier(var@),
            decreases n - i,
        {
            if assignee_eq(&self.entries[i].0, &key) {
                proof {
                    lemma_entries_map_dom(s0);
                    lemma_entries_map_val(s0, i as int);
                    assert(is_literal(val_at(s0, i as int)));
                }
                let (stored_key, stored_val) = self.entries.remove(i);
                match stored_val {
                    TypedExpression::FieldElementArray(
                        FieldElementArrayExpression::Value(size, mut elems),
                    ) => {
                        proof {
                            lemma_view_fe_seq(elems@);
                        }
                        if index.value() < size as u64 {
                            let idx = index.value() as usize;
                            let ghost elems0 = elems@;
                            elems.remove(idx);
                            elems.insert(idx, FieldElementExpression::Number(*elem));
                            proof {
                                assert(elems@ =~= elems0.update(
                                    idx as int,
                                    FieldElementExpression::Number(*elem),
                                ));
                                lemma_view_fe_seq(elems@);
                                assert(view_fe_seq(elems@) =~= view_fe_seq(elems0).update(
                                    idx as int,
                                    SpecFieldExpression::Number(elem@),
                                ));
                            }
                            let new_val = TypedExpression::FieldElementArray(
                                FieldElementArrayExpression::Value(size, elems),
                            );
                            self.entries.insert(i, (stored_key, new_val));
                            proof {
                                let s1 = self.entries@;
                                assert(s1 =~= s0.update(i as int, (stored_key, new_val)));
                                assert(is_literal(new_val@));
                                lemma_update_entry(s0, i as int, stored_key, new_val);
                                assert forall|j: int| 0 <= j < s1.len() implies is_literal(
                                    #[trigger] val_at(s1, j),
                                ) by {
                                    if j != i {
                                        assert(val_at(s1, j) == val_at(s0, j));
                                    }
                                }
                            }
                            return Ok(());
                        } else {
                            let restored = TypedExpression::FieldElementArray(
                                FieldElementArrayExpression::Value(size, elems),
                            );
                            let out = Err(
                                Error::OutOfBounds { index: index.value(), size: size as u64 },
                            );
                            self.entries.insert(i, (stored_key, restored));
                            proof {
                                assert(self.entries@ =~= s0);
                            }
                            return out;
                        }
                    },
                    other => {
                        self.entries.insert(i, (stored_key, other));
                        proof {
                            assert(self.entries@ =~= s0);
                        }
                        return Err(Error::TypeInvariant);
                    },
                }
            }
            i += 1;
        }
        proof {
            lemma_entries_map_dom(s0);
            assert(!has_key(s0, SpecAssignee::Identifier(var@)));
        }
        Ok(())
    }
}

/// Updating one entry in place, keeping its key, is an insert on the map.
proof fn lemma_update_entry(
    s: Seq<(TypedAssignee, TypedExpression)>,
    i: int,
    a: TypedAssignee,
    e: TypedExpression,
)
    requires
        unique_keys(s),
        0 <= i < s.len(),
        key_at(s, i) == a@,
    ensures
        unique_keys(s.update(i, (a, e))),
        entries_map(s.update(i, (a, e))) == entries_map(s).insert(a@, e@),
{
    let u = s.update(i, (a, e));
    assert(forall|j: int| 0 <= j < s.len() ==> key_at(u, j) == key_at(s, j));
    assert(unique_keys(u));
    lemma_entries_map_dom(s);
    lemma_entries_map_dom(u);
    assert forall|k: SpecAssignee| #[trigger] entries_map(u).contains_key(k) <==> entries_map(
        s,
    ).insert(a@, e@).contains_key(k) by {
        if entries_map(u).contains_key(k) {
            let j = choose|j: int| 0 <= j < u.len() && key_at(u, j) == k;
            assert(key_at(s, j) == k);
        }
        if entries_map(s).insert(a@, e@).contains_key(k) {
            if k == a@ {
                assert(key_at(u, i) == k);
            } else {
                let j = choose|j: int| 0 <= j < s.len() && key_at(s, j) == k;
                assert(key_at(u, j) == k);
            }
        }
    }
    assert forall|k: SpecAssignee| #[trigger] entries_map(u).contains_key(k) implies entries_map(
        u,
    )[k] == entries_map(s).insert(a@, e@)[k] by {
        let j = choose|j: int| 0 <= j < u.len() && key_at(u, j) == k;
        lemma_entries_map_val(u, j);
        if k == a@ {
            assert(j == i);
        } else {
            assert(j != i);
            lemma_entries_map_val(s, j);
        }
    }
    assert(entries_map(u) =~= entries_map(s).insert(a@, e@));
}

/// Taking one entry out is a remove on the map.
proof fn lemma_remove_entry(s: Seq<(TypedAssignee, TypedExpression)>, i: int)
    requires
        unique_keys(s),
        0 <= i < s.len(),
    ensures
        unique_keys(s.remove(i)),
        literal_values(s) ==> literal_values(s.remove(i)),
        entries_map(s.remove(i)) == entries_map(s).remove(key_at(s, i)),
{
    let r = s.remove(i);
    assert(forall|j: int| 0 <= j < i ==> key_at(r, j) == key_at(s, j) && val_at(r, j) == val_at(
        s,
        j,
    ));
    assert(forall|j: int|
        i <= j < r.len() ==> key_at(r, j) == key_at(s, j + 1) && val_at(r, j) == val_at(s, j + 1));
    assert(unique_keys(r)) by {
        assert forall|x: int, y: int| 0 <= x < y < r.len() implies key_at(r, x) != key_at(
            r,
            y,
        ) by {
            let sx = if x < i {
                x
            } else {
                x + 1
            };
            let sy = if y < i {
                y
            } else {
                y + 1
            };
            assert(key_at(r, x) == key_at(s, sx) && key_at(r, y) == key_at(s, sy));
        }
    }
    if literal_values(s) {
        assert forall|j: int| 0 <= j < r.len() implies is_literal(#[trigger] val_at(r, j)) by {
            let sj = if j < i {
                j
            } else {
                j + 1
            };
            assert(val_at(r, j) == val_at(s, sj));
        }
    }
    lemma_entries_map_dom(s);
    lemma_entries_map_dom(r);
    let k = key_at(s, i);
    assert forall|k2: SpecAssignee| #[trigger] entries_map(r).contains_key(k2) <==> entries_map(
        s,
    ).remove(k).contains_key(k2) by {
        if entries_map(r).contains_key(k2) {
            let j = choose|j: int| 0 <= j < r.len() && key_at(r, j) == k2;
            let sj = if j < i {
                j
            } else {
                j + 1
            };
            assert(key_at(s, sj) == k2);
            assert(k2 != k);
        }
        if entries_map(s).remove(k).contains_key(k2) {
            let j = choose|j: int| 0 <= j < s.len() && key_at(s, j) == k2;
            assert(j != i);
            let rj = if j < i {
                j
            } else {
                j - 1
            };
            assert(key_at(r, rj) == k2);
        }
    }
    assert forall|k2: SpecAssignee| #[trigger] entries_map(r).contains_key(k2) implies entries_map(
        r,
    )[k2] == entries_map(s).remove(k)[k2] by {
        let j = choose|j: int| 0 <= j < r.len() && key_at(r, j) == k2;
        lemma_entries_map_val(r, j);
        let sj = if j < i {
            j
        } else {
            j + 1
        };
        lemma_entries_map_val(s, sj);
    }
    assert(entries_map(r) =~= entries_map(s).remove(k));
}

} // verus!
