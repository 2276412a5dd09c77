//! Stored vectors: how their components lie in bytes, and how stored bytes are read.
//!
//! A component is a 32-bit number, handled here by its bit pattern.

use vstd::prelude::*;

use crate::json::{items_of, json_document, parse_json, JsonView};
use crate::paths::texts_view;
use crate::sidecar::{number_texts, vector_texts};

verus! {

/// The bytes of a component, lowest first.
pub open spec fn component_bytes(x: u32) -> Seq<u8> {
    seq![
        (x % 256) as u8,
        (x / 256 % 256) as u8,
        (x / 65536 % 256) as u8,
        (x / 16777216) as u8,
    ]
}

/// The component that four bytes hold, lowest first.
pub open spec fn component(b0: u8, b1: u8, b2: u8, b3: u8) -> u32 {
    (b0 + 256 * b1 + 65536 * b2 + 16777216 * b3) as u32
}

/// The bytes of a vector.
pub open spec fn vector_bytes(v: Seq<u32>) -> Seq<u8>
    decreases v.len(),
{
    if v.len() == 0 {
        Seq::empty()
    } else {
        vector_bytes(v.drop_last()) + component_bytes(v.last())
    }
}

/// The vector that bytes hold, four to a component.
pub open spec fn bytes_vector(b: Seq<u8>) -> Seq<u32> {
    Seq::new(
        b.len() / 4,
        |i: int| component(b[4 * i], b[4 * i + 1], b[4 * i + 2], b[4 * i + 3]),
    )
}

/// The bytes under which a vector is stored. See [`vector_bytes`].
pub fn vec_to_blob(v: &Vec<u32>) -> (b: Vec<u8>)
    ensures
        b@ == vector_bytes(v@),
{
    let mut out: Vec<u8> = Vec::new();
    let mut i: usize = 0;
    assert(v@.take(0) =~= Seq::empty());
    while i < v.len()
        invariant
            i <= v.len(),
            out@ == vector_bytes(v@.take(i as int)),
        decreases v.len() - i,
    {
        let x: u32 = v[i];
        let ghost before = out@;
        out.push((x % 256) as u8);
        out.push((x / 256 % 256) as u8);
        out.push((x / 65536 % 256) as u8);
        out.push((x / 16777216) as u8);
        assert(out@ =~= before + component_bytes(x));
        i = i + 1;
        assert(v@.take(i as int).drop_last() =~= v@.take(i - 1));
    }
    assert(v@.take(i as int) =~= v@);
    out
}

/// A stored vector: components as they lie in bytes, or as decimal texts.
pub enum StoredVector {
    Binary(Vec<u32>),
    Decimal(Vec<String>),
}

/// What a [`StoredVector`] stands for.
pub enum StoredView {
    Binary(Seq<u32>),
    Decimal(Seq<Seq<char>>),
}

impl View for StoredVector {
    type V = StoredView;

    open spec fn view(&self) -> StoredView {
        match *self {
            StoredVector::Binary(v) => StoredView::Binary(v@),
            StoredVector::Decimal(t) => StoredView::Decimal(texts_view(t@)),
        }
    }
}

impl StoredVector {
    /// The number of components.
    pub fn dimensions(&self) -> (n: usize)
        ensures
            n == dimensions_of(self@),
    {
        match self {
            StoredVector::Binary(v) => v.len(),
            StoredVector::Decimal(t) => t.len(),
        }
    }

    /// The bytes under which the vector is to be stored anew, by its components; `None` where it
    /// is stored as bytes already. See [`compacted_bytes`].
    pub fn compacted(&self, components: &Vec<u32>) -> (b: Option<Vec<u8>>)
        ensures
            match b {
                Some(bytes) => compacted_bytes(self@, components@) == Some(bytes@),
                None => compacted_bytes(self@, components@) is None,
            },
    {
        match self {
            StoredVector::Binary(_) => None,
            StoredVector::Decimal(_) => Some(vec_to_blob(components)),
        }
    }
}

/// The bytes under which a stored vector with the given components is to be stored anew: those
/// of the components where it is stored as decimal texts.
pub open spec fn compacted_bytes(v: StoredView, components: Seq<u32>) -> Option<Seq<u8>> {
    match v {
        StoredView::Binary(_) => None,
        StoredView::Decimal(_) => Some(vector_bytes(components)),
    }
}

/// The number of components of a stored vector.
pub open spec fn dimensions_of(v: StoredView) -> nat {
    match v {
        StoredView::Binary(b) => b.len(),
        StoredView::Decimal(t) => t.len(),
    }
}

/// Whether bytes hold components directly: their number is a multiple of four and they do not
/// start with `[`.
pub open spec fn is_binary(b: Seq<u8>) -> bool {
    b.len() % 4 == 0 && !(b.len() > 0 && b[0] == 0x5b)
}

/// Whether every byte is an ASCII character.
pub open spec fn all_ascii(b: Seq<u8>) -> bool {
    forall|i: int| 0 <= i < b.len() ==> #[trigger] b[i] < 128
}

/// The text of ASCII bytes.
pub open spec fn ascii_chars(b: Seq<u8>) -> Seq<char> {
    b.map_values(|x: u8| x as char)
}

/// The vector that stored bytes hold: their components where they are binary, else the numbers
/// of the JSON list that they spell.
pub open spec fn stored_vector(b: Seq<u8>) -> Option<StoredView> {
    if is_binary(b) {
        Some(StoredView::Binary(bytes_vector(b)))
    } else if all_ascii(b) {
        match json_document(ascii_chars(b)) {
            Ok(doc) => match items_of(Some(doc)) {
                Some(items) => match number_texts(items, items.len()) {
                    Some(t) => Some(StoredView::Decimal(t)),
                    None => None,
                },
                None => None,
            },
            Err(_) => None,
        }
    } else {
        None
    }
}

/// Whether an optional stored vector is the one expected.
pub open spec fn is_stored(r: Option<StoredVector>, expected: Option<StoredView>) -> bool {
    match (r, expected) {
        (Some(v), Some(e)) => v@ == e,
        (None, None) => true,
        _ => false,
    }
}

fn read_components(b: &Vec<u8>) -> (v: Vec<u32>)
    requires
        b.len() % 4 == 0,
    ensures
        v@ == bytes_vector(b@),
{
    let n: usize = b.len() / 4;
    let mut out: Vec<u32> = Vec::new();
    let mut i: usize = 0;
    while i < n
        invariant
            i <= n,
            n == b.len() / 4,
            out.len() == i,
            forall|j: int| 0 <= j < i ==> #[trigger] out[j] == bytes_vector(b@)[j],
        decreases n - i,
    {
        let at: usize = 4 * i;
        let x: u32 = b[at] as u32 + 256 * (b[at + 1] as u32) + 65536 * (b[at + 2] as u32) + 16777216
            * (b[at + 3] as u32);
        out.push(x);
        i = i + 1;
    }
    assert(out@ =~= bytes_vector(b@));
    out
}

fn ascii_text(b: &Vec<u8>) -> (t: Option<String>)
    ensures
        match t {
            Some(s) => all_ascii(b@) && s@ == ascii_chars(b@),
            None => !all_ascii(b@),
        },
{
    let mut out = String::new();
    let mut i: usize = 0;
    while i < b.len()
        invariant
            i <= b.len(),
            forall|j: int| 0 <= j < i ==> #[trigger] b[j] < 128,
            out@ == ascii_chars(b@.take(i as int)),
        decreases b.len() - i,
    {
        let x: u8 = b[i];
        if x >= 128 {
            return None;
        }
        out.push(x as char);
        i = i + 1;
        assert(ascii_chars(b@.take(i as int)) =~= ascii_chars(b@.take(i - 1)).push(x as char));
    }
    assert(b@.take(i as int) =~= b@);
    Some(out)
}

/// See [`stored_vector`].
pub fn parse_vec(b: &Vec<u8>) -> (v: Option<StoredVector>)
    ensures
        is_stored(v, stored_vector(b@)),
{
    if b.len() % 4 == 0 && !(b.len() > 0 && b[0] == 0x5b) {
        return Some(StoredVector::Binary(read_components(b)));
    }
    let text = match ascii_text(b) {
        Some(t) => t,
        None => {
            return None;
        },
    };
    let doc = match parse_json(text.as_str()) {
        Ok(doc) => doc,
        Err(_) => {
            return None;
        },
    };
    match doc.as_items() {
        Some(items) => match vector_texts(items) {
            Some(t) => Some(StoredVector::Decimal(t)),
            None => None,
        },
        None => None,
    }
}

/// The vector that stored bytes hold, if it has the given number of components.
pub open spec fn comparable(b: Seq<u8>, dimensions: nat) -> Option<StoredView> {
    match stored_vector(b) {
        Some(s) => if dimensions_of(s) == dimensions {
            Some(s)
        } else {
            None
        },
        None => None,
    }
}

/// The stored vector that can be held against one of the given number of components; `None`
/// where the bytes hold none of that length. See [`comparable`].
pub fn comparable_vector(b: &Vec<u8>, dimensions: usize) -> (v: Option<StoredVector>)
    ensures
        is_stored(v, comparable(b@, dimensions as nat)),
{
    match parse_vec(b) {
        Some(v) => if v.dimensions() == dimensions {
            Some(v)
        } else {
            None
        },
        None => None,
    }
}

/// Of vectors that can be compared, exactly those whose bytes do not hold the components directly
/// are stored anew, under the bytes of their components. What is stored is then left as it is,
/// unless its bytes start with `[`.
pub proof fn only_other_bytes_are_compacted(b: Seq<u8>, dimensions: nat, components: Seq<u32>)
    requires
        comparable(b, dimensions) is Some,
    ensures
        compacted_bytes(comparable(b, dimensions)->0, components) == if is_binary(b) {
            None
        } else {
            Some(vector_bytes(components))
        },
        components.len() == dimensions && (dimensions == 0 || components[0] % 256 != 0x5b) ==> {
            let stored = vector_bytes(components);
            &&& comparable(stored, dimensions) == Some(StoredView::Binary(components))
            &&& compacted_bytes(comparable(stored, dimensions)->0, components) is None
        },
{
    if components.len() == dimensions && (dimensions == 0 || components[0] % 256 != 0x5b) {
        stored_vector_reads_back(components);
    }
}

proof fn lemma_component(x: u32)
    ensures
        component(
            component_bytes(x)[0],
            component_bytes(x)[1],
            component_bytes(x)[2],
            component_bytes(x)[3],
        ) == x,
{
    let b = component_bytes(x);
    assert(b[0] as int + 256 * (b[1] as int) + 65536 * (b[2] as int) + 16777216 * (b[3] as int)
        == x);
}

proof fn lemma_vector_bytes(v: Seq<u32>, i: int)
    requires
        0 <= i < v.len(),
    ensures
        vector_bytes(v).len() == 4 * v.len(),
        component(
            vector_bytes(v)[4 * i],
            vector_bytes(v)[4 * i + 1],
            vector_bytes(v)[4 * i + 2],
            vector_bytes(v)[4 * i + 3],
        ) == v[i],
        vector_bytes(v)[0] == (v[0] % 256) as u8,
    decreases v.len(),
{
    let rest = v.drop_last();
    let last = component_bytes(v.last());
    assert(vector_bytes(v) == vector_bytes(rest) + last);
    if rest.len() > 0 {
        lemma_vector_bytes(rest, 0);
    } else {
        assert(vector_bytes(rest) =~= Seq::empty());
    }
    if i < rest.len() {
        lemma_vector_bytes(rest, i);
    } else {
        lemma_component(v.last());
        assert(vector_bytes(v)[4 * i] == last[0]);
        assert(vector_bytes(v)[4 * i + 1] == last[1]);
        assert(vector_bytes(v)[4 * i + 2] == last[2]);
        assert(vector_bytes(v)[4 * i + 3] == last[3]);
    }
}

/// A vector read back from the bytes it was stored under is the same vector, unless those bytes
/// start with `[`.
pub proof fn stored_vector_reads_back(v: Seq<u32>)
    requires
        v.len() == 0 || v[0] % 256 != 0x5b,
    ensures
        stored_vector(vector_bytes(v)) == Some(StoredView::Binary(v)),
{
    let b = vector_bytes(v);
    if v.len() > 0 {
        lemma_vector_bytes(v, 0);
    }
    assert(bytes_vector(b) =~= v) by {
        assert forall|i: int| 0 <= i < v.len() implies #[trigger] bytes_vector(b)[i] == v[i] by {
            lemma_vector_bytes(v, i);
        }
    }
}

proof fn lemma_bytes_of_component(b0: u8, b1: u8, b2: u8, b3: u8)
    ensures
        component_bytes(component(b0, b1, b2, b3)) == seq![b0, b1, b2, b3],
{
    let x = component(b0, b1, b2, b3);
    assert(x == b0 + 256 * b1 + 65536 * b2 + 16777216 * b3);
    assert(x % 256 == b0);
    assert(x / 256 == b1 + 256 * b2 + 65536 * b3);
    assert(x / 256 % 256 == b1);
    assert(x / 65536 == b2 + 256 * b3);
    assert(x / 65536 % 256 == b2);
    assert(x / 16777216 == b3);
    assert(component_bytes(x) =~= seq![b0, b1, b2, b3]);
}

/// Bytes that are read as components are the bytes under which those components are stored.
pub proof fn binary_bytes_are_kept(b: Seq<u8>)
    requires
        is_binary(b),
    ensures
        vector_bytes(bytes_vector(b)) == b,
    decreases b.len(),
{
    let v = bytes_vector(b);
    if b.len() > 0 {
        let rest = b.take(b.len() - 4);
        assert(is_binary(rest));
        binary_bytes_are_kept(rest);
        assert(v.drop_last() =~= bytes_vector(rest));
        let n = b.len() as int;
        assert(4 * (v.len() - 1) == n - 4);
        assert(v.last() == component(b[n - 4], b[n - 3], b[n - 2], b[n - 1]));
        lemma_bytes_of_component(b[n - 4], b[n - 3], b[n - 2], b[n - 1]);
        assert(b.skip(n - 4) =~= seq![b[n - 4], b[n - 3], b[n - 2], b[n - 1]]);
        assert(b =~= rest + b.skip(n - 4));
    } else {
        assert(vector_bytes(v) =~= b);
    }
}

/// Bytes are read as binary numbers exactly where they make whole numbers of four bytes and do not
/// start with an opening bracket; each number is then its own four bytes, the lowest first.
pub proof fn binary_bytes_are_read_four_by_four(b: Seq<u8>)
    ensures
        stored_vector(b) matches Some(StoredView::Binary(_)) <==> b.len() % 4 == 0 && (b.len() == 0
            || b[0] != 91),
        stored_vector(b) matches Some(StoredView::Binary(v)) ==> 4 * v.len() == b.len() && forall|
            i: int,
        |
            0 <= i < v.len() ==> #[trigger] v[i] == b[4 * i] + 0x100 * b[4 * i + 1] + 0x10000
                * b[4 * i + 2] + 0x1000000 * b[4 * i + 3],
{
    if let Some(StoredView::Binary(v)) = stored_vector(b) {
        assert forall|i: int| 0 <= i < v.len() implies #[trigger] v[i] == b[4 * i] + 0x100 * b[4 * i
            + 1] + 0x10000 * b[4 * i + 2] + 0x1000000 * b[4 * i + 3] by {}
    }
}

/// Other bytes are a vector exactly where they are the text of a list of numbers, and then every
/// number of the list is read, in order.
pub proof fn other_bytes_are_a_list_of_numbers(b: Seq<u8>)
    requires
        !(b.len() % 4 == 0 && (b.len() == 0 || b[0] != 91)),
    ensures
        stored_vector(b) is Some ==> all_ascii(b) && (json_document(ascii_chars(b)) matches Ok(
            JsonView::Array(items),
        ) && stored_vector(b) matches Some(StoredView::Decimal(t)) && t.len() == items.len()
            && forall|i: int|
            0 <= i < t.len() ==> (#[trigger] items[i]) is Number && t[i] == items[i]->Number_0),
        all_ascii(b) && (json_document(ascii_chars(b)) matches Ok(JsonView::Array(items)) && forall|
            i: int,
        |
            0 <= i < items.len() ==> (#[trigger] items[i]) is Number) ==> stored_vector(b) is Some,
{
    if let Ok(JsonView::Array(items)) = json_document(ascii_chars(b)) {
        crate::answers::numbers_are_read_whole(items);
    }
}

/// A stored vector is compared exactly where it has as many numbers as the one that is looked for,
/// and then it is compared as it is.
pub proof fn only_vectors_of_one_length_are_compared(b: Seq<u8>, dimensions: nat)
    ensures
        comparable(b, dimensions) is Some <==> match stored_vector(b) {
            Some(StoredView::Binary(v)) => v.len() == dimensions,
            Some(StoredView::Decimal(t)) => t.len() == dimensions,
            None => false,
        },
        comparable(b, dimensions) is Some ==> comparable(b, dimensions) == stored_vector(b),
{
}

} // verus!
