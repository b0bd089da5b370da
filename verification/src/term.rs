//! Terms: the values that requests and replies are made of, and their CBOR form.

use vstd::prelude::*;
use vstd::string::*;

use crate::error::Error;

verus! {

/// A value of the wire format, as far as the runtime reads or writes it.
#[derive(Debug)]
pub enum Term {
    Text(String),
    Int(i128),
    Array(Vec<Term>),
    Record(Vec<(Term, Term)>),
    /// Any other kind of value; it can be received but is never sent.
    Other,
}

/// What a `Term` holds.
pub enum TermView {
    Text(Seq<char>),
    Int(int),
    Array(Seq<TermView>),
    Record(Seq<(TermView, TermView)>),
    Other,
}

impl Term {
    pub open spec fn tree(self) -> TermView
        decreases self,
    {
        match self {
            Term::Text(text) => TermView::Text(text@),
            Term::Int(n) => TermView::Int(n as int),
            Term::Array(items) => TermView::Array(
                Seq::new(
                    items@.len(),
                    |i: int|
                        if 0 <= i < items@.len() {
                            items@[i].tree()
                        } else {
                            TermView::Other
                        },
                ),
            ),
            Term::Record(entries) => TermView::Record(
                Seq::new(
                    entries@.len(),
                    |i: int|
                        if 0 <= i < entries@.len() {
                            (entries@[i].0.tree(), entries@[i].1.tree())
                        } else {
                            (TermView::Other, TermView::Other)
                        },
                ),
            ),
            Term::Other => TermView::Other,
        }
    }
}

impl View for Term {
    type V = TermView;

    open spec fn view(&self) -> TermView {
        self.tree()
    }
}

/// What the terms of a vector hold.
pub open spec fn trees(items: Seq<Term>) -> Seq<TermView> {
    items.map_values(|item: Term| item@)
}

/// What the entries of a record hold.
pub open spec fn entry_trees(entries: Seq<(Term, Term)>) -> Seq<(TermView, TermView)> {
    entries.map_values(|entry: (Term, Term)| (entry.0@, entry.1@))
}

pub fn array(items: Vec<Term>) -> (r: Term)
    ensures
        r@ == TermView::Array(trees(items@)),
{
    let r = Term::Array(items);
    assert(r@->Array_0 =~= trees(items@));
    r
}

pub fn record(entries: Vec<(Term, Term)>) -> (r: Term)
    ensures
        r@ == TermView::Record(entry_trees(entries@)),
{
    let r = Term::Record(entries);
    assert(r@->Record_0 =~= entry_trees(entries@));
    r
}

/// A record without entries, to be filled.
pub open spec fn no_fields() -> Seq<(TermView, TermView)> {
    Seq::empty()
}

/// A named text.
pub open spec fn text_entry(name: Seq<char>, text: Seq<char>) -> (TermView, TermView) {
    (TermView::Text(name), TermView::Text(text))
}

/// A named value.
pub open spec fn entry(name: Seq<char>, value: TermView) -> (TermView, TermView) {
    (TermView::Text(name), value)
}

pub fn text_term(text: &str) -> (r: Term)
    ensures
        r@ == TermView::Text(text@),
{
    Term::Text(text.to_owned())
}

/// The entries of a record that is being put together.
#[derive(Debug)]
pub struct Fields {
    entries: Vec<(Term, Term)>,
}

impl View for Fields {
    type V = Seq<(TermView, TermView)>;

    closed spec fn view(&self) -> Seq<(TermView, TermView)> {
        entry_trees(self.entries@)
    }
}

impl Fields {
    pub fn new() -> (r: Fields)
        ensures
            r@ == Seq::<(TermView, TermView)>::empty(),
    {
        let r = Fields { entries: Vec::new() };
        assert(r@ =~= Seq::<(TermView, TermView)>::empty());
        r
    }

    pub fn put(&mut self, name: &str, value: Term)
        ensures
            final(self)@ == old(self)@.push(entry(name@, value@)),
    {
        self.put_under(text_term(name), value);
    }

    pub fn put_text(&mut self, name: &str, text: &str)
        ensures
            final(self)@ == old(self)@.push(text_entry(name@, text@)),
    {
        self.put_under(text_term(name), text_term(text));
    }

    pub fn put_int(&mut self, name: &str, n: i64)
        ensures
            final(self)@ == old(self)@.push(entry(name@, TermView::Int(n as int))),
    {
        self.put_under(text_term(name), Term::Int(n as i128));
    }

    fn put_under(&mut self, key: Term, value: Term)
        ensures
            final(self)@ == old(self)@.push((key@, value@)),
    {
        let ghost before = self@;
        self.entries.push((key, value));
        assert(self@ =~= before.push((key@, value@)));
    }

    pub fn into_record(self) -> (r: Term)
        ensures
            r@ == TermView::Record(self@),
    {
        record(self.entries)
    }
}

/// Whether a value can be sent: texts, 64-bit integers, and arrays and records
/// of such values.
pub open spec fn plain(t: TermView) -> bool
    decreases t,
{
    match t {
        TermView::Text(_) => true,
        TermView::Int(n) => i64::MIN <= n <= i64::MAX,
        TermView::Array(items) => forall|i: int| 0 <= i < items.len() ==> plain(#[trigger] items[i]),
        TermView::Record(entries) => forall|i: int|
            0 <= i < entries.len() ==> {
                let entry = #[trigger] entries[i];
                plain(entry.0) && plain(entry.1)
            },
        TermView::Other => false,
    }
}

// ---- the codec ----

#[verifier::external_type_specification]
#[verifier::external_body]
pub struct ExCborValue(ciborium::Value);

/// What a `ciborium::Value` holds: texts, integers, arrays and maps by their
/// contents, anything else as `Other`.
pub uninterp spec fn cbor_tree(value: ciborium::Value) -> TermView;

/// What the values of a vector hold.
pub open spec fn cbor_trees(items: Seq<ciborium::Value>) -> Seq<TermView> {
    items.map_values(|item: ciborium::Value| cbor_tree(item))
}

/// What pairs of values hold.
pub open spec fn cbor_entry_trees(entries: Seq<(ciborium::Value, ciborium::Value)>) -> Seq<
    (TermView, TermView),
> {
    entries.map_values(|entry: (ciborium::Value, ciborium::Value)| (cbor_tree(entry.0), cbor_tree(
        entry.1,
    )))
}

/// `ciborium::Value::Text`: a value that holds the text.
#[verifier::external_body]
fn cbor_text(text: &str) -> (r: ciborium::Value)
    ensures
        cbor_tree(r) == TermView::Text(text@),
{
    ciborium::Value::Text(text.to_string())
}

/// `ciborium::value::Integer::from`: a value that holds the integer.
#[verifier::external_body]
fn cbor_int(n: i64) -> (r: ciborium::Value)
    ensures
        cbor_tree(r) == TermView::Int(n as int),
{
    ciborium::Value::Integer(ciborium::value::Integer::from(n))
}

/// `ciborium::Value::Array`: a value that holds the items.
#[verifier::external_body]
fn cbor_array(items: Vec<ciborium::Value>) -> (r: ciborium::Value)
    ensures
        cbor_tree(r) == TermView::Array(cbor_trees(items@)),
{
    ciborium::Value::Array(items)
}

/// `ciborium::Value::Map`: a value that holds the entries.
#[verifier::external_body]
fn cbor_record(entries: Vec<(ciborium::Value, ciborium::Value)>) -> (r: ciborium::Value)
    ensures
        cbor_tree(r) == TermView::Record(cbor_entry_trees(entries@)),
{
    ciborium::Value::Map(entries)
}

/// One layer of a `ciborium::Value`.
enum Layer<'a> {
    Text(&'a String),
    Int(i128),
    Array(&'a Vec<ciborium::Value>),
    Record(&'a Vec<(ciborium::Value, ciborium::Value)>),
    Other,
}

/// The variants of `ciborium::Value`: a text, an integer (every one of which
/// fits in an `i128`), an array, a map, or something else.
#[verifier::external_body]
fn cbor_layer<'a>(value: &'a ciborium::Value) -> (r: Layer<'a>)
    ensures
        match r {
            Layer::Text(text) => cbor_tree(*value) == TermView::Text(text@),
            Layer::Int(n) => cbor_tree(*value) == TermView::Int(n as int),
            Layer::Array(items) => cbor_tree(*value) == TermView::Array(cbor_trees(items@)),
            Layer::Record(entries) => cbor_tree(*value) == TermView::Record(
                cbor_entry_trees(entries@),
            ),
            Layer::Other => cbor_tree(*value) == TermView::Other,
        },
{
    match value {
        ciborium::Value::Text(text) => Layer::Text(text),
        ciborium::Value::Integer(n) => Layer::Int(i128::from(*n)),
        ciborium::Value::Array(items) => Layer::Array(items),
        ciborium::Value::Map(entries) => Layer::Record(entries),
        _ => Layer::Other,
    }
}

/// The bytes that `ciborium::ser::into_writer` writes for a value that holds
/// this.
pub uninterp spec fn cbor_encoded(t: TermView) -> Seq<u8>;

/// `ciborium::ser::into_writer` into a vector: the encoding of the value, which
/// depends on what it holds alone. It fails where the writer does, and a vector
/// takes everything.
#[verifier::external_body]
fn cbor_encode(value: &ciborium::Value) -> (r: Option<Vec<u8>>)
    requires
        plain(cbor_tree(*value)),
    ensures
        r is Some,
        r->0@ == cbor_encoded(cbor_tree(*value)),
{
    let mut bytes = Vec::new();
    ciborium::ser::into_writer(value, &mut bytes).ok().map(|_| bytes)
}

/// What `ciborium::de::from_reader` reads off these bytes, if they begin with
/// an encoded value.
pub uninterp spec fn cbor_decoded(bytes: Seq<u8>) -> Option<TermView>;

/// `ciborium::de::from_reader` on a slice: the value at its start, or an error.
#[verifier::external_body]
fn cbor_decode(bytes: &[u8]) -> (r: Option<ciborium::Value>)
    ensures
        match r {
            Some(value) => cbor_decoded(bytes@) == Some(cbor_tree(value)),
            None => cbor_decoded(bytes@) is None,
        },
{
    ciborium::de::from_reader(bytes).ok()
}

/// The codec's value for a term, if the term can be sent.
fn to_cbor(term: &Term) -> (r: Option<ciborium::Value>)
    ensures
        match r {
            Some(value) => plain(term@) && cbor_tree(value) == term@,
            None => !plain(term@),
        },
    decreases *term,
{
    match term {
        Term::Text(text) => Some(cbor_text(text.as_str())),
        Term::Int(n) => if i64::MIN as i128 <= *n && *n <= i64::MAX as i128 {
            Some(cbor_int(*n as i64))
        } else {
            None
        },
        Term::Array(items) => {
            let mut out: Vec<ciborium::Value> = Vec::new();
            let mut i: usize = 0;
            while i < items.len()
                invariant
                    i <= items@.len(),
                    *term == Term::Array(*items),
                    cbor_trees(out@) =~= trees(items@).take(i as int),
                    forall|j: int| 0 <= j < i ==> plain(#[trigger] items@[j]@),
                decreases items@.len() - i,
            {
                assert(decreases_to!(*term => term->Array_0));
                assert(decreases_to!(*items => items@));
                assert(decreases_to!(items@ => items@[i as int]));
                match to_cbor(&items[i]) {
                    Some(value) => {
                        let ghost before = cbor_trees(out@);
                        out.push(value);
                        assert(cbor_trees(out@) =~= before.push(items@[i as int]@));
                    },
                    None => {
                        assert(term@->Array_0[i as int] == items@[i as int]@);
                        return None;
                    },
                }
                i += 1;
            }
            proof {
                assert(term@->Array_0 =~= trees(items@));
                assert(cbor_trees(out@) =~= trees(items@));
                assert forall|j: int| 0 <= j < term@->Array_0.len() implies plain(
                    #[trigger] term@->Array_0[j],
                ) by {
                    assert(plain(items@[j]@));
                }
            }
            Some(cbor_array(out))
        },
        Term::Record(entries) => {
            let mut out: Vec<(ciborium::Value, ciborium::Value)> = Vec::new();
            let mut i: usize = 0;
            while i < entries.len()
                invariant
                    i <= entries@.len(),
                    *term == Term::Record(*entries),
                    cbor_entry_trees(out@) =~= entry_trees(entries@).take(i as int),
                    forall|j: int|
                        0 <= j < i ==> plain((#[trigger] entries@[j]).0@) && plain(entries@[j].1@),
                decreases entries@.len() - i,
            {
                assert(decreases_to!(*term => term->Record_0));
                assert(decreases_to!(*entries => entries@));
                assert(decreases_to!(entries@ => entries@[i as int]));
                assert(decreases_to!(entries@[i as int] => entries@[i as int].0));
                assert(decreases_to!(entries@[i as int] => entries@[i as int].1));
                match (to_cbor(&entries[i].0), to_cbor(&entries[i].1)) {
                    (Some(key), Some(value)) => {
                        let ghost before = cbor_entry_trees(out@);
                        out.push((key, value));
                        assert(cbor_entry_trees(out@) =~= before.push(
                            (entries@[i as int].0@, entries@[i as int].1@),
                        ));
                    },
                    _ => {
                        assert(term@->Record_0[i as int] == (
                            entries@[i as int].0@,
                            entries@[i as int].1@,
                        ));
                        return None;
                    },
                }
                i += 1;
            }
            proof {
                assert(term@->Record_0 =~= entry_trees(entries@));
                assert(cbor_entry_trees(out@) =~= entry_trees(entries@));
                assert forall|j: int| 0 <= j < term@->Record_0.len() implies {
                    let entry = #[trigger] term@->Record_0[j];
                    plain(entry.0) && plain(entry.1)
                } by {
                    assert(plain(entries@[j].0@));
                }
            }
            Some(cbor_record(out))
        },
        Term::Other => None,
    }
}

/// The term that a value of the codec holds.
fn from_cbor(value: &ciborium::Value) -> (r: Term)
    ensures
        r@ == cbor_tree(*value),
    decreases cbor_tree(*value),
{
    match cbor_layer(value) {
        Layer::Text(text) => Term::Text(text.clone()),
        Layer::Int(n) => Term::Int(n),
        Layer::Array(items) => {
            let mut out: Vec<Term> = Vec::new();
            let mut i: usize = 0;
            let ghost tree = cbor_tree(*value);
            while i < items.len()
                invariant
                    i <= items@.len(),
                    tree == cbor_tree(*value),
                    tree == TermView::Array(cbor_trees(items@)),
                    trees(out@) =~= cbor_trees(items@).take(i as int),
                decreases items@.len() - i,
            {
                proof {
                    assert(decreases_to!(tree => tree->Array_0));
                    assert(decreases_to!(tree->Array_0 => tree->Array_0[i as int]));
                    assert(tree->Array_0[i as int] == cbor_tree(items@[i as int]));
                }
                let ghost before = trees(out@);
                let item = from_cbor(&items[i]);
                out.push(item);
                assert(trees(out@) =~= before.push(item@));
                i += 1;
            }
            assert(trees(out@) =~= cbor_trees(items@));
            array(out)
        },
        Layer::Record(entries) => {
            let mut out: Vec<(Term, Term)> = Vec::new();
            let mut i: usize = 0;
            let ghost tree = cbor_tree(*value);
            while i < entries.len()
                invariant
                    i <= entries@.len(),
                    tree == cbor_tree(*value),
                    tree == TermView::Record(cbor_entry_trees(entries@)),
                    entry_trees(out@) =~= cbor_entry_trees(entries@).take(i as int),
                decreases entries@.len() - i,
            {
                proof {
                    let all = tree->Record_0;
                    assert(decreases_to!(tree => tree->Record_0));
                    assert(decreases_to!(tree->Record_0 => tree->Record_0[i as int]));
                    assert(decreases_to!(tree->Record_0[i as int] => tree->Record_0[i as int].0));
                    assert(decreases_to!(tree->Record_0[i as int] => tree->Record_0[i as int].1));
                    assert(all[i as int] == (
                        cbor_tree(entries@[i as int].0),
                        cbor_tree(entries@[i as int].1),
                    ));
                }
                let ghost before = entry_trees(out@);
                let key = from_cbor(&entries[i].0);
                let item = from_cbor(&entries[i].1);
                out.push((key, item));
                assert(entry_trees(out@) =~= before.push((key@, item@)));
                i += 1;
            }
            assert(entry_trees(out@) =~= cbor_entry_trees(entries@));
            record(out)
        },
        Layer::Other => Term::Other,
    }
}

/// The encoding of a term, or `refusal` if it cannot be sent.
pub fn encode_term(term: &Term, refusal: &str) -> (r: Result<Vec<u8>, Error>)
    ensures
        match r {
            Ok(bytes) => plain(term@) && bytes@ == cbor_encoded(term@),
            Err(error) => !plain(term@) && error@ == refusal@,
        },
{
    match to_cbor(term) {
        Some(value) => match cbor_encode(&value) {
            Some(bytes) => Ok(bytes),
            None => Err(Error::of(refusal)),
        },
        None => Err(Error::of(refusal)),
    }
}

/// The term at the start of `bytes`, or `refusal` if they do not begin with an
/// encoded value.
pub fn decode_term(bytes: &[u8], refusal: &str) -> (r: Result<Term, Error>)
    ensures
        match r {
            Ok(term) => cbor_decoded(bytes@) == Some(term@),
            Err(error) => error@ == refusal@ && cbor_decoded(bytes@) is None,
        },
{
    match cbor_decode(bytes) {
        Some(value) => Ok(from_cbor(&value)),
        None => Err(Error::of(refusal)),
    }
}

/// What can be sent: texts, integers of 64 bits, and arrays and records of which
/// every part can be sent.
pub proof fn plain_values_can_be_sent(t: TermView)
    ensures
        t is Text ==> plain(t),
        t is Int ==> (plain(t) <==> -0x8000_0000_0000_0000 <= t->Int_0 <= 0x7fff_ffff_ffff_ffff),
        t is Array ==> (plain(t) <==> forall|i: int|
            0 <= i < t->Array_0.len() ==> plain(#[trigger] t->Array_0[i])),
        t is Record ==> (plain(t) <==> forall|i: int|
            0 <= i < t->Record_0.len() ==> plain((#[trigger] t->Record_0[i]).0) && plain(
                t->Record_0[i].1,
            )),
        t is Other ==> !plain(t),
{
}

} // verus!
