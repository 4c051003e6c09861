use crate::tombstoning_arena::Index;
use crate::text::{chars_of, string_of};
use std::marker::PhantomData;
use vstd::prelude::*;
use vstd::string::*;

verus! {

/// What a store hands out to name a node: a copyable value that stands for
/// a position in the store.
pub trait Handle: Copy {
    /// The position that the handle stands for.
    spec fn index(self) -> nat;

    fn position(&self) -> (r: usize)
        ensures
            r == self.index(),
    ;
}

impl Handle for usize {
    open spec fn index(self) -> nat {
        self as nat
    }

    fn position(&self) -> (r: usize) {
        *self
    }
}

impl<T> Handle for TypedIndex<T> {
    open spec fn index(self) -> nat {
        self.id as nat
    }

    fn position(&self) -> (r: usize) {
        self.id
    }
}

/// A type that can say its own full name, for error values and diagnostics.
pub trait TypeLabel {
    /// The type's name with its module path, generic arguments included.
    spec fn label() -> Seq<char>;

    fn type_label() -> (r: String)
        ensures
            r@ == Self::label(),
    ;
}

impl TypeLabel for i32 {
    open spec fn label() -> Seq<char> {
        "i32"@
    }

    fn type_label() -> (r: String) {
        let r = String::from_str("i32");
        assert(r@ == "i32"@);
        assert(Self::label() == "i32"@);
        r
    }
}

impl TypeLabel for i64 {
    open spec fn label() -> Seq<char> {
        "i64"@
    }

    fn type_label() -> (r: String) {
        let r = String::from_str("i64");
        assert(r@ == "i64"@);
        assert(Self::label() == "i64"@);
        r
    }
}

impl TypeLabel for usize {
    open spec fn label() -> Seq<char> {
        "usize"@
    }

    fn type_label() -> (r: String) {
        let r = String::from_str("usize");
        assert(r@ == "usize"@);
        assert(Self::label() == "usize"@);
        r
    }
}

impl<T: TypeLabel> TypeLabel for TypedIndex<T> {
    open spec fn label() -> Seq<char> {
        "steel::typed_index::TypedIndex<"@ + T::label() + ">"@
    }

    fn type_label() -> (r: String) {
        let inner = T::type_label();
        let head = String::from_str("steel::typed_index::TypedIndex<");
        assert(head@ == "steel::typed_index::TypedIndex<"@);
        let r = head.concat(inner.as_str()).concat(">");
        assert(r@ == "steel::typed_index::TypedIndex<"@ + T::label() + ">"@);
        assert(Self::label() == "steel::typed_index::TypedIndex<"@ + T::label() + ">"@);
        r
    }
}

/// The start of `s` up to, and without, the first `<`.
pub open spec fn before_generics(s: Seq<char>) -> Seq<char>
    decreases s.len(),
{
    if s.len() == 0 || s[0] == '<' {
        Seq::empty()
    } else {
        seq![s[0]].add(before_generics(s.drop_first()))
    }
}

/// The end of `s` after the last `::`, all of `s` where it holds none.
pub open spec fn last_segment(s: Seq<char>) -> Seq<char>
    decreases s.len(),
{
    if s.len() < 2 {
        s
    } else if s[s.len() - 2] == ':' && s[s.len() - 1] == ':' {
        Seq::empty()
    } else {
        last_segment(s.drop_last()).push(s.last())
    }
}

/// The short name of a type whose full name is `full`: generic arguments
/// and the module path are cut away.
pub open spec fn descriptor_of(full: Seq<char>) -> Seq<char> {
    last_segment(before_generics(full))
}

proof fn before_generics_prefix(s: Seq<char>, n: int)
    requires
        0 <= n <= s.len(),
        forall|j: int| 0 <= j < n ==> s[j] != '<',
        n == s.len() || s[n] == '<',
    ensures
        before_generics(s) == s.take(n),
    decreases n,
{
    if n == 0 {
        assert(s.take(0) =~= Seq::<char>::empty());
    } else {
        let t = s.drop_first();
        assert forall|j: int| 0 <= j < n - 1 implies t[j] != '<' by {
            assert(t[j] == s[j + 1]);
        }
        before_generics_prefix(t, n - 1);
        assert(seq![s[0]].add(t.take(n - 1)) =~= s.take(n));
    }
}

/// Whether a path separator starts at index `j` of `s`.
pub open spec fn separator_at(s: Seq<char>, j: int) -> bool {
    0 <= j && j + 2 <= s.len() && s[j] == ':' && s[j + 1] == ':'
}

proof fn last_segment_suffix(s: Seq<char>, k: int)
    requires
        0 <= k <= s.len(),
        forall|j: int| k - 2 < j ==> !#[trigger] separator_at(s, j),
        k < 2 || separator_at(s, k - 2),
    ensures
        last_segment(s) == s.skip(if k < 2 { 0 } else { k }),
    decreases s.len() - k,
{
    let start = if k < 2 { 0 } else { k };
    if s.len() < 2 {
        assert(s.skip(0) =~= s);
    } else if k == s.len() {
        assert(s.skip(k) =~= Seq::<char>::empty());
    } else {
        let t = s.drop_last();
        assert(!separator_at(s, s.len() - 2));
        assert forall|j: int| k - 2 < j implies !#[trigger] separator_at(t, j) by {
            if separator_at(t, j) {
                assert(separator_at(s, j));
            }
        }
        if k >= 2 {
            assert(separator_at(s, k - 2));
            assert(separator_at(t, k - 2));
        }
        last_segment_suffix(t, k);
        assert(t.skip(start).push(s.last()) =~= s.skip(start));
    }
}

/// Cuts a full type name down to its last path segment before any `<`.
pub fn short_name(full: &str) -> (r: String)
    ensures
        r@ == descriptor_of(full@),
{
    let chars = chars_of(full);
    let mut n: usize = 0;
    while n < chars.len() && chars[n] != '<'
        invariant
            n <= chars@.len(),
            forall|j: int| 0 <= j < n ==> chars@[j] != '<',
        decreases chars@.len() - n,
    {
        n += 1;
    }
    proof {
        before_generics_prefix(chars@, n as int);
    }
    let ghost head = chars@.take(n as int);
    // the start of the last segment of `head`
    let mut k: usize = n;
    while k >= 2 && !(chars[k - 2] == ':' && chars[k - 1] == ':')
        invariant
            k <= n <= chars@.len(),
            head == chars@.take(n as int),
            forall|j: int| k - 2 < j ==> !#[trigger] separator_at(head, j),
        decreases k,
    {
        k -= 1;
    }
    let start: usize = if k < 2 { 0 } else { k };
    let mut out: Vec<char> = Vec::new();
    let mut i: usize = start;
    while i < n
        invariant
            start <= i <= n <= chars@.len(),
            out@ == chars@.subrange(start as int, i as int),
        decreases n - i,
    {
        out.push(chars[i]);
        assert(chars@.subrange(start as int, i as int).push(chars@[i as int])
            =~= chars@.subrange(start as int, i + 1));
        i += 1;
    }
    proof {
        last_segment_suffix(head, k as int);
        assert(head.skip(start as int) =~= chars@.subrange(start as int, n as int));
    }
    string_of(&out)
}

/// The short name of the type `T`: its label without module path and
/// generic arguments.
pub fn typed_descriptor<T: TypeLabel>() -> (r: String)
    ensures
        r@ == descriptor_of(T::label()),
{
    let full_name = T::type_label();
    short_name(full_name.as_str())
}

/// An index that remembers, in its type, what kind of pool it points into.
#[derive(Debug, PartialEq, Eq, Hash)]
pub struct TypedIndex<T> {
    pub id: Index,
    pub ty: PhantomData<T>,
}

impl<T> TypedIndex<T> {
    pub fn new(id: Index) -> (r: Self)
        ensures
            r.id == id,
    {
        Self { id, ty: PhantomData }
    }
}

impl<T> Copy for TypedIndex<T> {

}

impl<T> Clone for TypedIndex<T> {
    fn clone(&self) -> (r: Self)
        ensures
            r == *self,
    {
        Self { id: self.id, ty: self.ty }
    }
}

} // verus!
