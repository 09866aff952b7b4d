//! Heap objects: interned strings and the table that owns them.
use vstd::prelude::*;

verus! {

/// A reference to an interned string: its slot in the [`StringTable`].
/// Two references are equal exactly when their contents are equal.
#[derive(Clone, Copy, Debug, PartialEq, Eq, Structural)]
pub struct ObjString {
    pub index: usize,
}

/// The kinds of heap object.
#[derive(Clone, Copy, Debug, PartialEq, Eq, Structural)]
pub enum ObjType {
    ObjString(ObjString),
}

/// A reference to a heap object.
#[derive(Clone, Copy, Debug, PartialEq, Eq, Structural)]
pub struct Obj {
    pub type_of_object: ObjType,
}

/// The canonical instance of every string content seen so far.
/// No content is stored twice.
pub struct StringTable {
    pub strings: Vec<Vec<char>>,
}

/// No content appears in two slots.
pub open spec fn distinct(t: Seq<Seq<char>>) -> bool {
    forall|i: int, j: int| 0 <= i < j < t.len() ==> #[trigger] t[i] != #[trigger] t[j]
}

impl StringTable {
    /// The contents, by slot.
    pub open spec fn view(&self) -> Seq<Seq<char>> {
        self.strings@.map_values(|s: Vec<char>| s@)
    }

    /// Slots hold pairwise distinct contents.
    pub open spec fn wf(&self) -> bool {
        distinct(self@)
    }

    /// `r` refers to a slot of this table.
    pub open spec fn holds(&self, r: ObjString) -> bool {
        r.index < self@.len()
    }

    pub fn new() -> (t: StringTable)
        ensures
            t.wf(),
            t@ == Seq::<Seq<char>>::empty(),
    {
        StringTable { strings: Vec::new() }
    }

    /// The number of interned strings.
    pub fn len(&self) -> (n: usize)
        ensures
            n == self@.len(),
    {
        self.strings.len()
    }

    /// The content of an interned string.
    pub fn content(&self, r: ObjString) -> (s: &Vec<char>)
        requires
            self.holds(r),
        ensures
            s@ == self@[r.index as int],
    {
        &self.strings[r.index]
    }

    /// The slot holding `s`, if any.
    pub fn find(&self, s: &Vec<char>) -> (r: Option<usize>)
        ensures
            match r {
                Some(i) => i < self@.len() && self@[i as int] == s@,
                None => forall|i: int| 0 <= i < self@.len() ==> self@[i] != s@,
            },
    {
        let mut i: usize = 0;
        while i < self.strings.len()
            invariant
                i <= self@.len(),
                self@.len() == self.strings@.len(),
                forall|k: int| 0 <= k < i ==> self@[k] != s@,
            decreases self.strings.len() - i,
        {
            if same_chars(&self.strings[i], s) {
                return Some(i);
            }
            i = i + 1;
        }
        None
    }
}

/// Whether two character vectors hold the same sequence.
pub fn same_chars(a: &Vec<char>, b: &Vec<char>) -> (r: bool)
    ensures
        r == (a@ == b@),
{
    if a.len() != b.len() {
        return false;
    }
    let mut i: usize = 0;
    while i < a.len()
        invariant
            a.len() == b.len(),
            i <= a.len(),
            forall|k: int| 0 <= k < i ==> a@[k] == b@[k],
        decreases a.len() - i,
    {
        if a[i] != b[i] {
            return false;
        }
        i = i + 1;
    }
    assert(a@ =~= b@);
    true
}

/// Two references into a well-formed table are equal exactly when the
/// strings they refer to have equal contents.
pub proof fn lemma_reference_equality_is_content_equality(t: &StringTable, a: ObjString, b: ObjString)
    requires
        t.wf(),
        t.holds(a),
        t.holds(b),
    ensures
        (a == b) <==> (t@[a.index as int] == t@[b.index as int]),
{
    if a.index < b.index {
        assert(t@[a.index as int] != t@[b.index as int]);
    } else if b.index < a.index {
        assert(t@[b.index as int] != t@[a.index as int]);
    }
}

/// `n` is `o` after interning `c`: unchanged if some slot holds `c`, else one
/// slot more; slot `k` holds `c`.
pub open spec fn interned(o: Seq<Seq<char>>, n: Seq<Seq<char>>, c: Seq<char>, k: int) -> bool {
    &&& (exists|i: int| 0 <= i < o.len() && o[i] == c) ==> n == o
    &&& !(exists|i: int| 0 <= i < o.len() && o[i] == c) ==> n == o.push(c)
    &&& 0 <= k < n.len()
    &&& n[k] == c
}

/// Interning the same content twice gives the same reference and leaves the
/// table as the first interning left it.
pub proof fn lemma_intern_twice(
    t0: Seq<Seq<char>>,
    t1: Seq<Seq<char>>,
    t2: Seq<Seq<char>>,
    c: Seq<char>,
    k1: int,
    k2: int,
)
    requires
        distinct(t1),
        interned(t0, t1, c, k1),
        interned(t1, t2, c, k2),
    ensures
        k1 == k2,
        t2 == t1,
{
    assert(0 <= k1 < t1.len() && t1[k1] == c);
    assert(t2 == t1);
    if k1 != k2 {
        if k1 < k2 {
            assert(t1[k1] != t1[k2]);
        } else {
            assert(t1[k2] != t1[k1]);
        }
    }
}

impl Obj {
    /// Whether `value` is an object of the given kind.
    #[allow(non_snake_case)]
    pub fn isObjType(value: crate::value::Value, _object_type: ObjType) -> (r: bool)
        ensures
            r == (value.value_type is ValObj),
    {
        match value.value_type {
            crate::value::ValueType::ValObj(o) => match o.type_of_object {
                ObjType::ObjString(_) => true,
            },
            _ => false,
        }
    }

    /// Interns `chars`: returns the canonical string object holding them,
    /// adding a slot to the table only when no slot holds them yet.
    #[allow(non_snake_case)]
    pub fn CopyString(table: &mut StringTable, chars: Vec<char>) -> (o: Obj)
        requires
            old(table).wf(),
        ensures
            final(table).wf(),
            o.type_of_object is ObjString,
            interned(old(table)@, final(table)@, chars@, o.type_of_object->ObjString_0.index as int),
    {
        match table.find(&chars) {
            Some(i) => Obj { type_of_object: ObjType::ObjString(ObjString { index: i }) },
            None => {
                let i = table.strings.len();
                let ghost c = chars@;
                table.strings.push(chars);
                proof {
                    assert(table@ =~= old(table)@.push(c));
                }
                Obj { type_of_object: ObjType::ObjString(ObjString { index: i }) }
            },
        }
    }
}

} // verus!
