//! Byte strings of the wire protocol and the small helpers that build them.
use vstd::prelude::*;
use vstd::slice::slice_to_vec;
use vstd::string::StringSliceAdditionalSpecFns;
use vstd::utf8::valid_utf8;

verus! {

/// The bytes of an ASCII text, as they go on the wire.
pub open spec fn text(s: &str) -> Seq<u8> {
    s.spec_bytes()
}

/// What `String::from_utf8_lossy` makes of a byte string.
pub uninterp spec fn utf8_lossy(b: Seq<u8>) -> Seq<u8>;

/// Relies on `std::str::from_utf8`: it succeeds exactly on well-formed UTF-8.
#[verifier::external_body]
pub(crate) fn is_utf8(b: &[u8]) -> (r: bool)
    ensures
        r == valid_utf8(b@),
{
    std::str::from_utf8(b).is_ok()
}

/// Relies on `String::from_utf8_lossy`: ill-formed sequences become U+FFFD,
/// and well-formed input comes back as it was.
#[verifier::external_body]
pub(crate) fn lossy_text(b: &[u8]) -> (r: Vec<u8>)
    ensures
        r@ == utf8_lossy(b@),
        valid_utf8(b@) ==> r@ == b@,
{
    String::from_utf8_lossy(b).into_owned().into_bytes()
}

/// The fields of a message, seen one by one, are the byte strings it holds.
pub(crate) proof fn lemma_field_views(message: &Vec<Vec<u8>>)
    ensures
        message.deep_view().len() == message@.len(),
        forall|i: int| 0 <= i < message@.len() ==> #[trigger] message.deep_view()[i] == message@[i]@,
{
    assert forall|i: int| 0 <= i < message@.len() implies #[trigger] message.deep_view()[i]
        == message@[i]@ by {
        assert(message@[i].deep_view() =~= message@[i]@);
    }
}

/// Compares two byte strings.
pub fn bytes_eq(a: &[u8], b: &[u8]) -> (r: bool)
    ensures
        r == (a@ == b@),
{
    if a.len() != b.len() {
        return false;
    }
    let mut i: usize = 0;
    while i < a.len()
        invariant
            a@.len() == b@.len(),
            i <= a@.len(),
            forall|j: int| 0 <= j < i ==> a@[j] == b@[j],
        decreases a@.len() - i,
    {
        if a[i] != b[i] {
            return false;
        }
        i = i + 1;
    }
    assert(a@ =~= b@);
    true
}

/// The bytes of `s` in a vector of their own.
pub(crate) fn text_bytes(s: &str) -> (r: Vec<u8>)
    ensures
        r@ == text(s),
{
    slice_to_vec(s.as_bytes())
}

/// A copy of a byte string.
pub(crate) fn copy_bytes(b: &[u8]) -> (r: Vec<u8>)
    ensures
        r@ == b@,
{
    slice_to_vec(b)
}

/// `prefix` followed by `rest`.
pub(crate) fn concat_bytes(prefix: &str, rest: &[u8]) -> (r: Vec<u8>)
    ensures
        r@ == text(prefix) + rest@,
{
    let mut r = text_bytes(prefix);
    let mut i: usize = 0;
    while i < rest.len()
        invariant
            i <= rest@.len(),
            r@ == text(prefix) + rest@.subrange(0, i as int),
        decreases rest@.len() - i,
    {
        r.push(rest[i]);
        assert(rest@.subrange(0, i + 1) =~= rest@.subrange(0, i as int).push(rest@[i as int]));
        i = i + 1;
    }
    assert(rest@.subrange(0, rest@.len() as int) =~= rest@);
    r
}

/// A message of two fields.
pub(crate) fn fields2(a: Vec<u8>, b: Vec<u8>) -> (r: Vec<Vec<u8>>)
    ensures
        r.deep_view() == seq![a@, b@],
{
    let mut r: Vec<Vec<u8>> = Vec::new();
    r.push(a);
    r.push(b);
    assert(a.deep_view() =~= a@);
    assert(b.deep_view() =~= b@);
    assert(r.deep_view() =~= seq![a@, b@]);
    r
}

/// A message of three fields.
pub(crate) fn fields3(a: Vec<u8>, b: Vec<u8>, c: Vec<u8>) -> (r: Vec<Vec<u8>>)
    ensures
        r.deep_view() == seq![a@, b@, c@],
{
    assert(a.deep_view() =~= a@);
    assert(b.deep_view() =~= b@);
    assert(c.deep_view() =~= c@);
    let mut r: Vec<Vec<u8>> = Vec::new();
    r.push(a);
    r.push(b);
    r.push(c);
    assert(r.deep_view() =~= seq![a@, b@, c@]);
    r
}

/// A message of four fields.
pub(crate) fn fields4(a: Vec<u8>, b: Vec<u8>, c: Vec<u8>, d: Vec<u8>) -> (r: Vec<Vec<u8>>)
    ensures
        r.deep_view() == seq![a@, b@, c@, d@],
{
    assert(a.deep_view() =~= a@);
    assert(b.deep_view() =~= b@);
    assert(c.deep_view() =~= c@);
    assert(d.deep_view() =~= d@);
    let mut r: Vec<Vec<u8>> = Vec::new();
    r.push(a);
    r.push(b);
    r.push(c);
    r.push(d);
    assert(r.deep_view() =~= seq![a@, b@, c@, d@]);
    r
}

/// A list of one message.
pub(crate) fn messages1(a: Vec<Vec<u8>>) -> (r: Vec<Vec<Vec<u8>>>)
    ensures
        r.deep_view() == seq![a.deep_view()],
{
    let mut r: Vec<Vec<Vec<u8>>> = Vec::new();
    r.push(a);
    assert(r.deep_view() =~= seq![a.deep_view()]);
    r
}

/// A list of two messages.
pub(crate) fn messages2(a: Vec<Vec<u8>>, b: Vec<Vec<u8>>) -> (r: Vec<Vec<Vec<u8>>>)
    ensures
        r.deep_view() == seq![a.deep_view(), b.deep_view()],
{
    let mut r: Vec<Vec<Vec<u8>>> = Vec::new();
    r.push(a);
    r.push(b);
    assert(r.deep_view() =~= seq![a.deep_view(), b.deep_view()]);
    r
}

/// A list of three messages.
pub(crate) fn messages3(a: Vec<Vec<u8>>, b: Vec<Vec<u8>>, c: Vec<Vec<u8>>) -> (r: Vec<
    Vec<Vec<u8>>,
>)
    ensures
        r.deep_view() == seq![a.deep_view(), b.deep_view(), c.deep_view()],
{
    let mut r: Vec<Vec<Vec<u8>>> = Vec::new();
    r.push(a);
    r.push(b);
    r.push(c);
    assert(r.deep_view() =~= seq![a.deep_view(), b.deep_view(), c.deep_view()]);
    r
}

} // verus!
