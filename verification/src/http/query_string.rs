//! The query part of a request target.

use crate::text::halves;
use crate::text::pieces;
use crate::text::split;
use crate::text::split_once;
use crate::text::views;
use vstd::hash_map::StringHashMap;
use vstd::prelude::*;

verus! {

/// What a query holds under one key: a single text, or several in the order
/// in which they stood in the query.
#[derive(Debug, PartialEq, Eq)]
pub enum Value<'buf> {
    Single(&'buf str),
    Multiple(Vec<&'buf str>),
}

impl<'buf> View for Value<'buf> {
    type V = Seq<Seq<char>>;

    /// The texts of the value, in order.
    open spec fn view(&self) -> Seq<Seq<char>> {
        match self {
            Value::Single(text) => seq![text@],
            Value::Multiple(texts) => views(texts@),
        }
    }
}

impl<'buf> Value<'buf> {
    /// A value is `Multiple` only where it holds at least two texts.
    pub open spec fn wf(self) -> bool {
        self matches Value::Multiple(texts) ==> texts@.len() >= 2
    }
}

/// The key of a fragment: what stands before its first `=`, or all of it
/// where it has none.
pub open spec fn fragment_key(fragment: Seq<char>) -> Seq<char> {
    match halves(fragment, "="@) {
        Some((key, _)) => key,
        None => fragment,
    }
}

/// The value of a fragment: what stands after its first `=`, or the empty
/// text where it has none.
pub open spec fn fragment_value(fragment: Seq<char>) -> Seq<char> {
    match halves(fragment, "="@) {
        Some((_, value)) => value,
        None => Seq::<char>::empty(),
    }
}

/// The values of the fragments whose key is `key`, in the fragments' order.
pub open spec fn values_of(fragments: Seq<Seq<char>>, key: Seq<char>) -> Seq<Seq<char>> {
    fragments.filter(|fragment: Seq<char>| fragment_key(fragment) == key).map_values(
        |fragment: Seq<char>| fragment_value(fragment),
    )
}

/// The mapping that a sequence of fragments stands for: each key that
/// occurs, with the values given for it, in order.
pub open spec fn query_of_fragments(fragments: Seq<Seq<char>>) -> Map<Seq<char>, Seq<Seq<char>>> {
    Map::new(
        |key: Seq<char>| values_of(fragments, key).len() > 0,
        |key: Seq<char>| values_of(fragments, key),
    )
}

/// The mapping that a query text stands for. The text is cut at every `&`
/// into fragments. Nothing is unescaped.
pub open spec fn query_of(raw: Seq<char>) -> Map<Seq<char>, Seq<Seq<char>>> {
    query_of_fragments(pieces(raw, '&'))
}

/// One more fragment adds its value at the end of the values of its key and
/// leaves every other key as it was.
pub proof fn lemma_values_of_push(fragments: Seq<Seq<char>>, fragment: Seq<char>, key: Seq<char>)
    ensures
        values_of(fragments.push(fragment), key) == if fragment_key(fragment) == key {
            values_of(fragments, key).push(fragment_value(fragment))
        } else {
            values_of(fragments, key)
        },
{
    let keeps = |f: Seq<char>| fragment_key(f) == key;
    reveal(Seq::filter);
    assert(fragments.push(fragment).drop_last() =~= fragments);
    assert(fragments.push(fragment).last() == fragment);
    if fragment_key(fragment) == key {
        assert(fragments.push(fragment).filter(keeps) == fragments.filter(keeps).push(fragment));
        assert(values_of(fragments.push(fragment), key) =~= values_of(fragments, key).push(
            fragment_value(fragment),
        ));
    } else {
        assert(fragments.push(fragment).filter(keeps) == fragments.filter(keeps));
    }
}

/// The texts that a map of values holds under each of its keys.
pub open spec fn texts_of(data: Map<Seq<char>, Value>) -> Map<Seq<char>, Seq<Seq<char>>> {
    Map::new(|key: Seq<char>| data.contains_key(key), |key: Seq<char>| data[key]@)
}

/// A parsed query: for each key, the value or values given for it.
pub struct QueryString<'buf> {
    data: StringHashMap<Value<'buf>>,
}

impl<'buf> View for QueryString<'buf> {
    type V = Map<Seq<char>, Seq<Seq<char>>>;

    /// For each key of the query, the texts given for it, in order.
    closed spec fn view(&self) -> Map<Seq<char>, Seq<Seq<char>>> {
        texts_of(self.data@)
    }
}

/// `items` with `last` added at its end.
fn with_one_more<'a>(items: &Vec<&'a str>, last: &'a str) -> (r: Vec<&'a str>)
    ensures
        r@ == items@.push(last),
{
    let mut r: Vec<&'a str> = Vec::new();
    let mut i: usize = 0;
    while i < items.len()
        invariant
            i <= items@.len(),
            r@ == items@.take(i as int),
        decreases items@.len() - i,
    {
        r.push(items[i]);
        assert(r@ =~= items@.take(i + 1));
        i += 1;
    }
    assert(items@.take(i as int) =~= items@);
    r.push(last);
    r
}

impl<'buf> QueryString<'buf> {
    #[verifier::type_invariant]
    spec fn inv(self) -> bool {
        forall|key: Seq<char>| #[trigger] self.data@.contains_key(key) ==> self.data@[key].wf()
    }

    /// Reads a query text. No text is refused: a fragment without `=` is a
    /// key with the empty text as its value.
    pub fn parse(raw: &'buf str) -> (query: QueryString<'buf>)
        ensures
            query@ == query_of(raw@),
    {
        let fragments = split(raw, '&');
        let mut data: StringHashMap<Value<'buf>> = StringHashMap::new();
        let mut i: usize = 0;
        assert(views(fragments@).take(0) =~= Seq::<Seq<char>>::empty());
        assert(texts_of(data@) =~= query_of_fragments(views(fragments@).take(0))) by {
            reveal(Seq::filter);
        }
        while i < fragments.len()
            invariant
                i <= fragments@.len(),
                texts_of(data@) == query_of_fragments(views(fragments@).take(i as int)),
                forall|key: Seq<char>| #[trigger]
                    data@.contains_key(key) ==> data@[key].wf(),
            decreases fragments@.len() - i,
        {
            let fragment = fragments[i];
            let ghost seen = views(fragments@).take(i as int);
            let ghost before = data@;
            let (key, value) = match split_once(fragment, "=") {
                Some((key, value)) => (key, value),
                None => {
                    proof {
                        reveal_strlit("");
                    }
                    assert(""@ =~= Seq::<char>::empty());
                    (fragment, "")
                },
            };
            assert(key@ == fragment_key(fragment@));
            assert(value@ == fragment_value(fragment@));
            let next = match data.get(key) {
                None => Value::Single(value),
                Some(Value::Single(first)) => {
                    let both = vec![*first, value];
                    assert(views(both@) =~= seq![first@].push(value@));
                    Value::Multiple(both)
                },
                Some(Value::Multiple(texts)) => {
                    let more = with_one_more(texts, value);
                    assert(views(more@) =~= views(texts@).push(value@));
                    Value::Multiple(more)
                },
            };
            proof {
                assert(views(fragments@).take(i + 1) =~= seen.push(fragment@));
                assert(texts_of(before).contains_key(key@) == (values_of(seen, key@).len() > 0));
                if before.contains_key(key@) {
                    assert(texts_of(before)[key@] == values_of(seen, key@));
                }
                lemma_values_of_push(seen, fragment@, key@);
                assert(next@ =~= values_of(seen.push(fragment@), key@));
            }
            data.insert(key.to_owned(), next);
            proof {
                let now = query_of_fragments(seen.push(fragment@));
                assert forall|k: Seq<char>| texts_of(data@).contains_key(k) == now.contains_key(
                    k,
                ) by {
                    lemma_values_of_push(seen, fragment@, k);
                    assert(texts_of(before).contains_key(k) == (values_of(seen, k).len() > 0));
                }
                assert forall|k: Seq<char>| texts_of(data@).contains_key(k) implies texts_of(
                    data@,
                )[k] == now[k] by {
                    lemma_values_of_push(seen, fragment@, k);
                    if k != key@ {
                        assert(texts_of(before)[k] == values_of(seen, k));
                    }
                }
                assert(texts_of(data@) =~= now);
            }
            i += 1;
        }
        assert(views(fragments@).take(i as int) =~= views(fragments@));
        QueryString { data }
    }

    /// The value or values given for `key`, if the query holds the key.
    pub fn get(&self, key: &str) -> (r: Option<&Value<'buf>>)
        ensures
            match r {
                Some(value) => self@.contains_key(key@) && value@ == self@[key@] && value.wf(),
                None => !self@.contains_key(key@),
            },
    {
        proof {
            use_type_invariant(self);
        }
        self.data.get(key)
    }
}

} // verus!
