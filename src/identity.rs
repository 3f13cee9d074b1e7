use vstd::prelude::*;

verus! {

/// A value that names one identity on one axis. Two identities are the
/// same exactly when their views are equal.
pub trait Identity: Sized + View {
    fn same(&self, other: &Self) -> (r: bool)
        ensures
            r == (self@ == other@),
    ;

    fn duplicate(&self) -> (r: Self)
        ensures
            r@ == self@,
    ;
}

/// The network address a request came from.
#[derive(Clone, Copy, Debug, PartialEq, Eq, Hash, Structural)]
pub enum ClientAddr {
    V4(u32),
    V6(u128),
}

impl View for ClientAddr {
    type V = ClientAddr;

    open spec fn view(&self) -> ClientAddr {
        *self
    }
}

impl Identity for ClientAddr {
    fn same(&self, other: &Self) -> (r: bool) {
        *self == *other
    }

    fn duplicate(&self) -> (r: Self) {
        *self
    }
}

/// A sending account: the twenty bytes of an account address.
#[derive(Clone, Copy, Debug, PartialEq, Eq, Hash)]
pub struct SenderAddr {
    pub bytes: [u8; 20],
}

impl View for SenderAddr {
    type V = Seq<u8>;

    open spec fn view(&self) -> Seq<u8> {
        self.bytes@
    }
}

impl Identity for SenderAddr {
    fn same(&self, other: &Self) -> (r: bool) {
        let mut i: usize = 0;
        while i < 20
            invariant
                0 <= i <= 20,
                self.bytes@.len() == 20,
                other.bytes@.len() == 20,
                forall|j: int| 0 <= j < i ==> self.bytes@[j] == other.bytes@[j],
            decreases 20 - i,
        {
            if self.bytes[i] != other.bytes[i] {
                return false;
            }
            i = i + 1;
        }
        assert(self.bytes@ =~= other.bytes@);
        true
    }

    fn duplicate(&self) -> (r: Self) {
        SenderAddr { bytes: self.bytes }
    }
}

/// An access token presented with a request.
#[derive(Clone, Debug, PartialEq, Eq, Hash)]
pub struct Token {
    pub text: String,
}

impl View for Token {
    type V = Seq<char>;

    open spec fn view(&self) -> Seq<char> {
        self.text@
    }
}

impl Identity for Token {
    fn same(&self, other: &Self) -> (r: bool) {
        self.text == other.text
    }

    fn duplicate(&self) -> (r: Self) {
        Token { text: self.text.clone() }
    }
}

/// The views of a list of identities, in order.
pub open spec fn views<T: View>(s: Seq<T>) -> Seq<T::V> {
    s.map_values(|t: T| t@)
}

/// Whether some identity in `v` is the same as `x`.
pub fn contains_identity<T: Identity>(v: &Vec<T>, x: &T) -> (r: bool)
    ensures
        r == views(v@).contains(x@),
{
    let mut i: usize = 0;
    while i < v.len()
        invariant
            0 <= i <= v@.len(),
            forall|j: int| 0 <= j < i ==> v@[j]@ != x@,
        decreases v@.len() - i,
    {
        if v[i].same(x) {
            assert(views(v@)[i as int] == x@);
            return true;
        }
        i = i + 1;
    }
    proof {
        if views(v@).contains(x@) {
            let j = choose|j: int| 0 <= j < views(v@).len() && views(v@)[j] == x@;
            assert(v@[j]@ == x@);
        }
    }
    false
}

/// Appends `x` to `v` unless an equal identity is already there.
pub fn push_unique<T: Identity>(v: &mut Vec<T>, x: T)
    ensures
        views(final(v)@) == if views(old(v)@).contains(x@) {
            views(old(v)@)
        } else {
            views(old(v)@).push(x@)
        },
{
    if !contains_identity(v, &x) {
        let ghost xv = x@;
        v.push(x);
        assert(views(v@) =~= views(old(v)@).push(xv));
    }
}

/// Pushing onto a list only when the value is new keeps it free of duplicates.
pub proof fn lemma_push_unique_distinct<V>(s: Seq<V>, x: V)
    requires
        s.no_duplicates(),
    ensures
        (if s.contains(x) { s } else { s.push(x) }).no_duplicates(),
{
    if !s.contains(x) {
        let t = s.push(x);
        assert forall|i: int, j: int| 0 <= i < t.len() && 0 <= j < t.len() && i != j implies t[i] != t[j] by {
            if i == s.len() as int {
                assert(t[j] == s[j]);
            } else if j == s.len() as int {
                assert(t[i] == s[i]);
            }
        }
    }
}

} // verus!
