//! Rider class registry: class names mapped to inclusive bib number
//! ranges.

use vstd::prelude::*;
use vstd::string::StringExecFns;

verus! {

/// Looks a class name up in an association list, first hit wins.
pub open spec fn spec_get_class(s: Seq<(String, (u32, u32))>, key: Seq<char>) -> Option<(u32, u32)>
    decreases s.len(),
{
    if s.len() == 0 {
        Option::None
    } else if s[0].0@ == key {
        Option::Some(s[0].1)
    } else {
        spec_get_class(s.subrange(1, s.len() as int), key)
    }
}

/// Classes with their inclusive start and end bib numbers.
#[derive(Clone, Debug)]
pub struct RiderConfig {
    classes: Vec<(String, (u32, u32))>,
}

impl RiderConfig {
    pub closed spec fn spec_classes(&self) -> Seq<(String, (u32, u32))> {
        self.classes@
    }

    /// No class name occurs twice.
    pub open spec fn wf(&self) -> bool {
        forall|i: int, j: int|
            0 <= i < j < self.spec_classes().len() ==> (#[trigger] self.spec_classes()[i]).0@ != (
            #[trigger] self.spec_classes()[j]).0@
    }

    pub fn new() -> (c: Self)
        ensures
            c.wf(),
            c.spec_classes().len() == 0,
    {
        RiderConfig { classes: Vec::new() }
    }

    /// Registers or replaces a class, returning the dimensions it
    /// previously had, if any.
    pub fn set_class(&mut self, class_name: &str, start_bib: u32, end_bib: u32) -> (r: Option<
        (u32, u32),
    >)
        requires
            old(self).wf(),
        ensures
            final(self).wf(),
            r == spec_get_class(old(self).spec_classes(), class_name@),
            spec_get_class(final(self).spec_classes(), class_name@) == Option::Some(
                (start_bib, end_bib),
            ),
            forall|k: Seq<char>|
                k != class_name@ ==> #[trigger] spec_get_class(final(self).spec_classes(), k)
                    == spec_get_class(old(self).spec_classes(), k),
    {
        let key = String::from_str(class_name);
        let n = self.classes.len();
        let mut i: usize = 0;
        while i < n
            invariant
                n == self.classes.len(),
                i <= n,
                old(self).wf(),
                self.classes@ == old(self).classes@,
                key@ == class_name@,
                forall|j: int| 0 <= j < i ==> (#[trigger] self.classes@[j]).0@ != class_name@,
            decreases n - i,
        {
            if self.classes[i].0 == key {
                let prev = self.classes[i].1;
                self.classes[i] = (key, (start_bib, end_bib));
                proof {
                    let s = old(self).classes@;
                    let e = self.classes@[i as int];
                    assert(self.classes@ =~= s.update(i as int, e));
                    lemma_get_class_prefix_hit(s, i as int, class_name@);
                    lemma_get_class_update(s, i as int, e);
                    lemma_get_class_prefix_hit(self.classes@, i as int, class_name@);
                    assert forall|a: int, b: int|
                        0 <= a < b < self.classes@.len() implies (#[trigger] self.classes@[a]).0@
                        != (#[trigger] self.classes@[b]).0@ by {
                        lemma_wf_distinct(old(self), a, b);
                    }
                }
                return Option::Some(prev);
            }
            i += 1;
        }
        self.classes.push((key, (start_bib, end_bib)));
        proof {
            let s = old(self).classes@;
            let e = self.classes@[s.len() as int];
            assert(self.classes@ =~= s.push(e));
            lemma_get_class_missing(s, class_name@);
            lemma_get_class_push(s, e);
            assert forall|a: int, b: int|
                0 <= a < b < self.classes@.len() implies (#[trigger] self.classes@[a]).0@ != (
            #[trigger] self.classes@[b]).0@ by {
                if b < s.len() {
                    lemma_wf_distinct(old(self), a, b);
                } else {
                    assert(self.classes@[b].0@ == class_name@);
                    assert(s[a].0@ != class_name@);
                }
            }
        }
        Option::None
    }

    /// Removes a class, returning its name and dimensions, if it was
    /// registered.
    pub fn erase_class(&mut self, class_name: &str) -> (r: Option<(String, (u32, u32))>)
        requires
            old(self).wf(),
        ensures
            final(self).wf(),
            spec_get_class(final(self).spec_classes(), class_name@) == Option::None::<(u32, u32)>,
            match r {
                Option::Some(entry) => {
                    &&& entry.0@ == class_name@
                    &&& Option::Some(entry.1) == spec_get_class(
                        old(self).spec_classes(),
                        class_name@,
                    )
                },
                Option::None => spec_get_class(old(self).spec_classes(), class_name@)
                    == Option::None::<(u32, u32)>,
            },
            forall|k: Seq<char>|
                k != class_name@ ==> #[trigger] spec_get_class(final(self).spec_classes(), k)
                    == spec_get_class(old(self).spec_classes(), k),
    {
        let key = String::from_str(class_name);
        let n = self.classes.len();
        let mut i: usize = 0;
        while i < n
            invariant
                n == self.classes.len(),
                i <= n,
                old(self).wf(),
                self.classes@ == old(self).classes@,
                key@ == class_name@,
                forall|j: int| 0 <= j < i ==> (#[trigger] self.classes@[j]).0@ != class_name@,
            decreases n - i,
        {
            if self.classes[i].0 == key {
                let entry = self.classes.remove(i);
                proof {
                    let s = old(self).classes@;
                    lemma_get_class_prefix_hit(s, i as int, class_name@);
                    assert forall|j: int| 0 <= j < s.len() && j != i as int implies (
                    #[trigger] s[j]).0@ != s[i as int].0@ by {
                        if j < i as int {
                            lemma_wf_distinct(old(self), j, i as int);
                        } else {
                            lemma_wf_distinct(old(self), i as int, j);
                        }
                    }
                    lemma_get_class_remove(s, i as int);
                    assert forall|a: int, b: int|
                        0 <= a < b < self.classes@.len() implies (#[trigger] self.classes@[a]).0@
                        != (#[trigger] self.classes@[b]).0@ by {
                        let a0 = if a < i as int { a } else { a + 1 };
                        let b0 = if b < i as int { b } else { b + 1 };
                        assert(self.classes@[a] == s[a0]);
                        assert(self.classes@[b] == s[b0]);
                        lemma_wf_distinct(old(self), a0, b0);
                    }
                }
                return Option::Some(entry);
            }
            i += 1;
        }
        proof {
            lemma_get_class_missing(self.spec_classes(), class_name@);
        }
        Option::None
    }

    /// The registered class names, in registration order.
    pub fn get_classes(&self) -> (r: Vec<String>)
        ensures
            r@.len() == self.spec_classes().len(),
            forall|i: int|
                0 <= i < r@.len() ==> (#[trigger] r@[i])@ == self.spec_classes()[i].0@,
    {
        let mut out: Vec<String> = Vec::new();
        let n = self.classes.len();
        let mut i: usize = 0;
        while i < n
            invariant
                n == self.classes.len(),
                i <= n,
                out@.len() == i,
                forall|j: int| 0 <= j < i ==> (#[trigger] out@[j])@ == self.classes@[j].0@,
            decreases n - i,
        {
            out.push(self.classes[i].0.clone());
            i += 1;
        }
        out
    }

    /// The inclusive bib range of a class, if it is registered.
    pub fn get_class_dimensions(&self, class_name: &str) -> (r: Option<(u32, u32)>)
        ensures
            r == spec_get_class(self.spec_classes(), class_name@),
    {
        let key = String::from_str(class_name);
        let n = self.classes.len();
        let mut i: usize = 0;
        while i < n
            invariant
                n == self.classes.len(),
                i <= n,
                key@ == class_name@,
                forall|j: int| 0 <= j < i ==> (#[trigger] self.classes@[j]).0@ != class_name@,
            decreases n - i,
        {
            if self.classes[i].0 == key {
                proof {
                    lemma_get_class_prefix_hit(self.spec_classes(), i as int, class_name@);
                }
                return Option::Some(self.classes[i].1);
            }
            i += 1;
        }
        proof {
            lemma_get_class_missing(self.spec_classes(), class_name@);
        }
        Option::None
    }
}

/// Two distinct entries of a well-formed registry carry distinct
/// names.
proof fn lemma_wf_distinct(c: &RiderConfig, a: int, b: int)
    requires
        c.wf(),
        0 <= a < b < c.spec_classes().len(),
    ensures
        c.spec_classes()[a].0@ != c.spec_classes()[b].0@,
{
}

/// If no entry before `i` carries `key` and entry `i` does, the
/// lookup lands on entry `i`.
proof fn lemma_get_class_prefix_hit(s: Seq<(String, (u32, u32))>, i: int, key: Seq<char>)
    requires
        0 <= i < s.len(),
        s[i].0@ == key,
        forall|j: int| 0 <= j < i ==> (#[trigger] s[j]).0@ != key,
    ensures
        spec_get_class(s, key) == Option::Some(s[i].1),
    decreases i,
{
    if i == 0 {
    } else {
        lemma_get_class_prefix_hit(s.subrange(1, s.len() as int), i - 1, key);
    }
}

/// If no entry carries `key`, the lookup misses.
proof fn lemma_get_class_missing(s: Seq<(String, (u32, u32))>, key: Seq<char>)
    requires
        forall|j: int| 0 <= j < s.len() ==> (#[trigger] s[j]).0@ != key,
    ensures
        spec_get_class(s, key) == Option::None::<(u32, u32)>,
    decreases s.len(),
{
    if s.len() == 0 {
    } else {
        lemma_get_class_missing(s.subrange(1, s.len() as int), key);
    }
}

/// Replacing entry `i` with an entry of the same name only changes
/// the lookup of that name.
proof fn lemma_get_class_update(s: Seq<(String, (u32, u32))>, i: int, e: (String, (u32, u32)))
    requires
        0 <= i < s.len(),
        s[i].0@ == e.0@,
    ensures
        forall|k: Seq<char>|
            k != e.0@ ==> #[trigger] spec_get_class(s.update(i, e), k) == spec_get_class(s, k),
    decreases i,
{
    let t = s.update(i, e);
    if i == 0 {
        assert forall|k: Seq<char>| k != e.0@ implies #[trigger] spec_get_class(t, k)
            == spec_get_class(s, k) by {
            assert(t[0] == e);
            assert(t[0].0@ != k);
            assert(s[0].0@ == e.0@);
            assert(t.subrange(1, t.len() as int) =~= s.subrange(1, s.len() as int));
            assert(spec_get_class(t, k) == spec_get_class(t.subrange(1, t.len() as int), k));
            assert(spec_get_class(s, k) == spec_get_class(s.subrange(1, s.len() as int), k));
        }
    } else {
        let st = s.subrange(1, s.len() as int);
        lemma_get_class_update(st, i - 1, e);
        assert forall|k: Seq<char>| k != e.0@ implies #[trigger] spec_get_class(t, k)
            == spec_get_class(s, k) by {
            assert(t[0] == s[0]);
            assert(t.subrange(1, t.len() as int) =~= st.update(i - 1, e));
            if s[0].0@ == k {
                assert(spec_get_class(t, k) == Option::Some(t[0].1));
                assert(spec_get_class(s, k) == Option::Some(s[0].1));
            } else {
                assert(spec_get_class(t, k) == spec_get_class(st.update(i - 1, e), k));
                assert(spec_get_class(s, k) == spec_get_class(st, k));
                assert(spec_get_class(st.update(i - 1, e), k) == spec_get_class(st, k));
            }
        }
    }
}

/// Appending an entry only changes the lookup of names the list
/// missed, and only for the appended name.
proof fn lemma_get_class_push(s: Seq<(String, (u32, u32))>, e: (String, (u32, u32)))
    ensures
        forall|k: Seq<char>|
            k != e.0@ ==> #[trigger] spec_get_class(s.push(e), k) == spec_get_class(s, k),
        spec_get_class(s, e.0@) == Option::None::<(u32, u32)> ==> spec_get_class(s.push(e), e.0@)
            == Option::Some(e.1),
    decreases s.len(),
{
    let t = s.push(e);
    if s.len() == 0 {
        assert forall|k: Seq<char>| k != e.0@ implies #[trigger] spec_get_class(t, k)
            == spec_get_class(s, k) by {
            assert(t[0] == e);
            assert(t[0].0@ != k);
            assert(t.subrange(1, 1) =~= Seq::<(String, (u32, u32))>::empty());
            assert(spec_get_class(t, k) == spec_get_class(t.subrange(1, 1), k));
        }
        assert(t[0] == e);
        assert(spec_get_class(t, e.0@) == Option::Some(e.1));
    } else {
        let st = s.subrange(1, s.len() as int);
        lemma_get_class_push(st, e);
        assert(t[0] == s[0]);
        assert(t.subrange(1, s.len() as int + 1) =~= st.push(e));
        assert forall|k: Seq<char>| k != e.0@ implies #[trigger] spec_get_class(t, k)
            == spec_get_class(s, k) by {
            if s[0].0@ == k {
                assert(spec_get_class(t, k) == Option::Some(t[0].1));
            } else {
                assert(spec_get_class(t, k) == spec_get_class(st.push(e), k));
                assert(spec_get_class(s, k) == spec_get_class(st, k));
            }
        }
        if spec_get_class(s, e.0@) == Option::None::<(u32, u32)> {
            assert(s[0].0@ != e.0@);
            assert(spec_get_class(st, e.0@) == Option::None::<(u32, u32)>);
            assert(spec_get_class(t, e.0@) == spec_get_class(st.push(e), e.0@));
        }
    }
}

/// Removing entry `i` only changes the lookup of names that land on
/// entry `i`.
proof fn lemma_get_class_remove(s: Seq<(String, (u32, u32))>, i: int)
    requires
        0 <= i < s.len(),
    ensures
        forall|k: Seq<char>|
            k != s[i].0@ ==> #[trigger] spec_get_class(s.remove(i), k) == spec_get_class(s, k),
        (forall|j: int| 0 <= j < s.len() && j != i ==> (#[trigger] s[j]).0@ != s[i].0@)
            ==> spec_get_class(s.remove(i), s[i].0@) == Option::None::<(u32, u32)>,
    decreases i,
{
    let t = s.remove(i);
    if i == 0 {
        assert(t =~= s.subrange(1, s.len() as int));
        assert forall|k: Seq<char>| k != s[0].0@ implies #[trigger] spec_get_class(t, k)
            == spec_get_class(s, k) by {
            assert(spec_get_class(s, k) == spec_get_class(s.subrange(1, s.len() as int), k));
        }
        if forall|j: int| 0 <= j < s.len() && j != i ==> (#[trigger] s[j]).0@ != s[i].0@ {
            assert forall|j: int| 0 <= j < t.len() implies (#[trigger] t[j]).0@ != s[0].0@ by {
                assert(t[j] == s[j + 1]);
            }
            lemma_get_class_missing(t, s[0].0@);
        }
    } else {
        let st = s.subrange(1, s.len() as int);
        lemma_get_class_remove(st, i - 1);
        assert(t[0] == s[0]);
        assert(st[i - 1] == s[i]);
        assert(t.subrange(1, t.len() as int) =~= st.remove(i - 1));
        assert forall|k: Seq<char>| k != s[i].0@ implies #[trigger] spec_get_class(t, k)
            == spec_get_class(s, k) by {
            if s[0].0@ == k {
                assert(spec_get_class(t, k) == Option::Some(t[0].1));
                assert(spec_get_class(s, k) == Option::Some(s[0].1));
            } else {
                assert(spec_get_class(t, k) == spec_get_class(st.remove(i - 1), k));
                assert(spec_get_class(s, k) == spec_get_class(st, k));
            }
        }
        if forall|j: int| 0 <= j < s.len() && j != i ==> (#[trigger] s[j]).0@ != s[i].0@ {
            assert forall|j: int| 0 <= j < st.len() && j != i - 1 implies (#[trigger] st[j]).0@
                != st[i - 1].0@ by {
                assert(st[j] == s[j + 1]);
            }
            assert(spec_get_class(st.remove(i - 1), s[i].0@) == Option::None::<(u32, u32)>);
            assert(s[0].0@ != s[i].0@);
            assert(spec_get_class(t, s[i].0@) == spec_get_class(st.remove(i - 1), s[i].0@));
        }
    }
}

} // verus!
