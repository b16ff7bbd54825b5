//! Attribute lists: the mapping from attribute names to values that a tag
//! carries, and the parser for `KEY=VALUE,KEY=VALUE,...`.

use crate::error::SyntaxError;
use crate::text::{
    chars_of, consume, lemma_run_end, lemma_run_end_is, lemma_run_end_skip, run_end, text_of,
    CharClass,
};
use crate::value::{
    lemma_lex_at_bounds, lemma_lex_at_ends_on_no_comma, lemma_lex_skip, lex, lex_value,
    AttributeValue, AttributeValueView,
};
use crate::views::ok_view;
use vstd::prelude::*;

verus! {

/// The attributes of one tag: each name occurs once, and the order in which
/// the names were written plays no part.
#[derive(Debug)]
pub struct AttributeMap {
    entries: Vec<(String, AttributeValue)>,
}

/// The mapping that a list of entries builds up when each entry in turn is
/// written over what was there.
spec fn entries_map(entries: Seq<(String, AttributeValue)>) -> Map<
    Seq<char>,
    AttributeValueView,
>
    decreases entries.len(),
{
    if entries.len() == 0 {
        Map::empty()
    } else {
        entries_map(entries.drop_last()).insert(entries.last().0@, entries.last().1@)
    }
}

/// No two entries have the same name.
spec fn distinct_keys(entries: Seq<(String, AttributeValue)>) -> bool {
    forall|i: int, j: int|
        0 <= i < j < entries.len() ==> (#[trigger] entries[i]).0@ != (#[trigger] entries[j]).0@
}

/// The names of the mapping are those of the entries.
proof fn lemma_entries_map_keys(entries: Seq<(String, AttributeValue)>, key: Seq<char>)
    ensures
        entries_map(entries).contains_key(key) <==> exists|i: int|
            0 <= i < entries.len() && (#[trigger] entries[i]).0@ == key,
    decreases entries.len(),
{
    if entries.len() > 0 {
        let front = entries.drop_last();
        lemma_entries_map_keys(front, key);
        if entries_map(entries).contains_key(key) {
            if entries.last().0@ == key {
                assert(entries[entries.len() - 1].0@ == key);
            } else {
                let i = choose|i: int| 0 <= i < front.len() && (#[trigger] front[i]).0@ == key;
                assert(entries[i].0@ == key);
            }
        }
        if exists|i: int| 0 <= i < entries.len() && (#[trigger] entries[i]).0@ == key {
            let i = choose|i: int| 0 <= i < entries.len() && (#[trigger] entries[i]).0@ == key;
            if i < entries.len() - 1 {
                assert(front[i].0@ == key);
            }
        }
    }
}

/// Where names are distinct, the mapping gives each name the value of its
/// entry.
proof fn lemma_entries_map_value(entries: Seq<(String, AttributeValue)>, i: int)
    requires
        distinct_keys(entries),
        0 <= i < entries.len(),
    ensures
        entries_map(entries).contains_key(entries[i].0@),
        entries_map(entries)[entries[i].0@] == entries[i].1@,
    decreases entries.len(),
{
    let front = entries.drop_last();
    if i < entries.len() - 1 {
        assert(distinct_keys(front)) by {
            assert forall|a: int, b: int| 0 <= a < b < front.len() implies (#[trigger] front[a]).0@
                != (#[trigger] front[b]).0@ by {
                assert(entries[a].0@ != entries[b].0@);
            }
        }
        lemma_entries_map_value(front, i);
        assert(front[i] == entries[i]);
        assert(entries[i].0@ != entries[entries.len() - 1].0@);
    }
}

/// Where names are distinct, to replace the value of one entry is to write
/// that name over in the mapping.
proof fn lemma_entries_map_update(
    entries: Seq<(String, AttributeValue)>,
    i: int,
    entry: (String, AttributeValue),
)
    requires
        distinct_keys(entries),
        0 <= i < entries.len(),
        entry.0@ == entries[i].0@,
    ensures
        distinct_keys(entries.update(i, entry)),
        entries_map(entries.update(i, entry)) == entries_map(entries).insert(entry.0@, entry.1@),
    decreases entries.len(),
{
    let after = entries.update(i, entry);
    assert(distinct_keys(after)) by {
        assert forall|a: int, b: int| 0 <= a < b < after.len() implies (#[trigger] after[a]).0@
            != (#[trigger] after[b]).0@ by {
            assert(entries[a].0@ != entries[b].0@);
        }
    }
    let front = entries.drop_last();
    if i < entries.len() - 1 {
        assert(distinct_keys(front)) by {
            assert forall|a: int, b: int| 0 <= a < b < front.len() implies (#[trigger] front[a]).0@
                != (#[trigger] front[b]).0@ by {
                assert(entries[a].0@ != entries[b].0@);
            }
        }
        lemma_entries_map_update(front, i, entry);
        assert(after.drop_last() =~= front.update(i, entry));
        assert(after.last() == entries.last());
        assert(entries[i].0@ != entries[entries.len() - 1].0@);
        assert(entries_map(after) =~= entries_map(entries).insert(entry.0@, entry.1@));
    } else {
        assert(after.drop_last() =~= front);
        assert(entries_map(after) =~= entries_map(entries).insert(entry.0@, entry.1@));
    }
}

/// Where names are distinct, the mapping has as many names as there are
/// entries.
proof fn lemma_entries_map_len(entries: Seq<(String, AttributeValue)>)
    requires
        distinct_keys(entries),
    ensures
        entries_map(entries).dom().finite(),
        entries_map(entries).len() == entries.len(),
    decreases entries.len(),
{
    if entries.len() > 0 {
        let front = entries.drop_last();
        let key = entries.last().0@;
        assert(distinct_keys(front)) by {
            assert forall|a: int, b: int| 0 <= a < b < front.len() implies (#[trigger] front[a]).0@
                != (#[trigger] front[b]).0@ by {
                assert(entries[a].0@ != entries[b].0@);
            }
        }
        lemma_entries_map_len(front);
        lemma_entries_map_keys(front, key);
        if entries_map(front).contains_key(key) {
            let i = choose|i: int| 0 <= i < front.len() && (#[trigger] front[i]).0@ == key;
            assert(entries[i].0@ != entries[entries.len() - 1].0@);
        }
        assert(entries_map(entries).dom() =~= entries_map(front).dom().insert(key));
    } else {
        assert(entries_map(entries).dom() =~= Set::empty());
    }
}

impl View for AttributeMap {
    type V = Map<Seq<char>, AttributeValueView>;

    /// The mapping from each name to its value.
    closed spec fn view(&self) -> Map<Seq<char>, AttributeValueView> {
        entries_map(self.entries@)
    }
}

impl AttributeMap {
    #[verifier::type_invariant]
    spec fn well_formed(&self) -> bool {
        distinct_keys(self.entries@)
    }

    /// The mapping without any name.
    pub fn new() -> (r: Self)
        ensures
            r@ == Map::<Seq<char>, AttributeValueView>::empty(),
    {
        AttributeMap { entries: Vec::new() }
    }

    /// The number of attributes.
    pub fn len(&self) -> (n: usize)
        ensures
            self@.dom().finite(),
            n == self@.len(),
    {
        proof {
            use_type_invariant(self);
            lemma_entries_map_len(self.entries@);
        }
        self.entries.len()
    }

    /// The position of the entry named `key`, if there is one.
    fn position(&self, key: &str) -> (r: Option<usize>)
        ensures
            match r {
                Some(i) => i < self.entries@.len() && self.entries@[i as int].0@ == key@,
                None => !self@.contains_key(key@),
            },
    {
        let mut i: usize = 0;
        while i < self.entries.len()
            invariant
                i <= self.entries@.len(),
                forall|k: int| 0 <= k < i ==> (#[trigger] self.entries@[k]).0@ != key@,
            decreases self.entries@.len() - i,
        {
            if self.entries[i].0.as_str().eq(key) {
                return Some(i);
            }
            i += 1;
        }
        proof {
            lemma_entries_map_keys(self.entries@, key@);
        }
        None
    }

    /// The value of the attribute named `key`, if the tag has it.
    pub fn get(&self, key: &str) -> (r: Option<&AttributeValue>)
        ensures
            match r {
                Some(v) => self@.contains_key(key@) && self@[key@] == v@,
                None => !self@.contains_key(key@),
            },
    {
        match self.position(key) {
            Some(i) => {
                proof {
                    use_type_invariant(self);
                    lemma_entries_map_value(self.entries@, i as int);
                }
                Some(&self.entries[i].1)
            },
            None => None,
        }
    }

    /// Gives the attribute named `key` the value `value`, in place of the
    /// value it had, if any.
    pub fn insert(&mut self, key: String, value: AttributeValue)
        ensures
            final(self)@ == old(self)@.insert(key@, value@),
    {
        proof {
            use_type_invariant(&*self);
        }
        let found = self.position(key.as_str());
        // The entries are changed outside the map and put back whole, so that
        // the map holds distinct names at every moment.
        let mut entries: Vec<(String, AttributeValue)> = Vec::new();
        core::mem::swap(&mut self.entries, &mut entries);
        match found {
            Some(i) => {
                proof {
                    lemma_entries_map_update(entries@, i as int, (key, value));
                }
                entries.set(i, (key, value));
            },
            None => {
                proof {
                    lemma_entries_map_keys(entries@, key@);
                    assert(entries@.push((key, value)).drop_last() =~= entries@);
                }
                entries.push((key, value));
            },
        }
        core::mem::swap(&mut self.entries, &mut entries);
    }
}

/// The mapping that the attribute list `s` adds to `seen`. A list is one
/// attribute or more, with a comma between each two. Each attribute is a name
/// of letters and hyphens, a `=` and a value; a later attribute of the same
/// name replaces an earlier one. The list ends where the text ends after a
/// value, and nowhere else: the empty text is no list, and behind a comma
/// another attribute must follow.
pub open spec fn attributes_onto(s: Seq<char>, seen: Map<Seq<char>, AttributeValueView>) -> Result<
    Map<Seq<char>, AttributeValueView>,
    SyntaxError,
>
    decreases s.len(),
{
    let equals = run_end(s, CharClass::Name, 0);
    if equals <= 0 || equals >= s.len() || s[equals] != '=' {
        Err(SyntaxError::AttributeSyntax)
    } else {
        match lex(s.skip(equals + 1)) {
            None => Err(SyntaxError::Lex),
            Some((rest, value)) => {
                let seen = seen.insert(s.take(equals), value);
                if rest.len() == 0 {
                    Ok(seen)
                } else if rest[0] != ',' {
                    Err(SyntaxError::AttributeSyntax)
                } else {
                    proof {
                        lemma_lex_at_bounds(s.skip(equals + 1), 0);
                        assert(rest.len() < s.len());
                    }
                    attributes_onto(rest.skip(1), seen)
                }
            },
        }
    }
}

/// The mapping that the attribute list `s` denotes, or the reason why `s` is
/// no attribute list.
pub open spec fn attributes(s: Seq<char>) -> Result<
    Map<Seq<char>, AttributeValueView>,
    SyntaxError,
> {
    attributes_onto(s, Map::empty())
}

/// A text that does not begin with a name of letters and hyphens followed by
/// a `=` is no attribute list. This holds of the empty text, and of what
/// stands behind a comma at the end of a text.
pub proof fn law_attributes_need_a_name(s: Seq<char>, seen: Map<Seq<char>, AttributeValueView>)
    requires
        s.len() == 0 || !CharClass::Name.has(s[0]) || forall|n: int|
            0 < n < s.len() && CharClass::Name.has_all(s.take(n)) ==> #[trigger] s[n] != '=',
    ensures
        attributes_onto(s, seen) == Err::<Map<Seq<char>, AttributeValueView>, _>(
            SyntaxError::AttributeSyntax,
        ),
{
    let equals = run_end(s, CharClass::Name, 0);
    lemma_run_end(s, CharClass::Name, 0);
    if 0 < equals < s.len() {
        assert(s.take(equals) =~= s.subrange(0, equals));
        if !CharClass::Name.has(s[0]) {
            assert(s.subrange(0, equals)[0] == s[0]);
        }
    }
}

/// What one attribute does: a name, a `=` and a text of which a value is read
/// give the name that value. If nothing is left, the list is complete. If what
/// is left begins with a comma, the list goes on behind it, and there it is
/// held to begin with an attribute again. Anything else is malformed.
pub proof fn law_attributes_read_one(
    name: Seq<char>,
    text: Seq<char>,
    seen: Map<Seq<char>, AttributeValueView>,
)
    requires
        name.len() > 0,
        CharClass::Name.has_all(name),
        lex(text) is Some,
    ensures
        attributes_onto(name + seq!['='] + text, seen) == ({
            let (rest, value) = lex(text)->Some_0;
            if rest.len() == 0 {
                Ok(seen.insert(name, value))
            } else if rest[0] != ',' {
                Err(SyntaxError::AttributeSyntax)
            } else {
                attributes_onto(rest.skip(1), seen.insert(name, value))
            }
        }),
{
    let s = name + seq!['='] + text;
    let equals = name.len() as int;
    assert(s.subrange(0, equals) =~= name);
    lemma_run_end_is(s, CharClass::Name, 0, equals);
    assert(s.skip(equals + 1) =~= text);
    assert(s.take(equals) =~= name);
}

/// A value that cannot be read makes the list a lexical failure.
pub proof fn law_attributes_need_a_value(
    name: Seq<char>,
    text: Seq<char>,
    seen: Map<Seq<char>, AttributeValueView>,
)
    requires
        name.len() > 0,
        CharClass::Name.has_all(name),
        lex(text) is None,
    ensures
        attributes_onto(name + seq!['='] + text, seen) == Err::<
            Map<Seq<char>, AttributeValueView>,
            _,
        >(SyntaxError::Lex),
{
    let s = name + seq!['='] + text;
    let equals = name.len() as int;
    assert(s.subrange(0, equals) =~= name);
    lemma_run_end_is(s, CharClass::Name, 0, equals);
    assert(s.skip(equals + 1) =~= text);
}

/// An attribute list ends on a value: it is not empty, and its last character
/// is no comma. So a text that ends on a comma is no attribute list.
pub proof fn law_attributes_end_on_a_value(
    s: Seq<char>,
    seen: Map<Seq<char>, AttributeValueView>,
)
    requires
        attributes_onto(s, seen) is Ok,
    ensures
        s.len() > 0,
        s.last() != ',',
    decreases s.len(),
{
    let equals = run_end(s, CharClass::Name, 0);
    let after = s.skip(equals + 1);
    lemma_lex_at_bounds(after, 0);
    lemma_lex_at_ends_on_no_comma(after, 0);
    let (rest, value) = lex(after)->Some_0;
    if rest.len() == 0 {
        assert(after.last() == s.last());
    } else {
        law_attributes_end_on_a_value(rest.skip(1), seen.insert(s.take(equals), value));
        assert(rest.skip(1).last() == s.last());
    }
}

/// Reads the attribute list `chars[from..]`.
pub fn attributes_at(chars: &[char], from: usize) -> (r: Result<AttributeMap, SyntaxError>)
    requires
        from <= chars@.len(),
    ensures
        ok_view(r) == attributes(chars@.skip(from as int)),
{
    let mut seen = AttributeMap::new();
    let mut at: usize = from;
    loop
        invariant
            from <= at <= chars@.len(),
            attributes(chars@.skip(from as int)) == attributes_onto(chars@.skip(at as int), seen@),
        decreases chars@.len() - at,
    {
        let ghost left = chars@.skip(at as int);
        let equals = consume(chars, CharClass::Name, at);
        proof {
            lemma_run_end_skip(chars@, CharClass::Name, at as int, at as int);
        }
        if equals == at || equals >= chars.len() || chars[equals] != '=' {
            return Err(SyntaxError::AttributeSyntax);
        }
        proof {
            lemma_lex_skip(chars@, equals + 1);
            assert(left.skip(equals - at + 1) =~= chars@.skip(equals + 1));
            assert(left.take(equals - at) =~= chars@.subrange(at as int, equals as int));
        }
        let (value, end) = match lex_value(chars, equals + 1) {
            Some(read) => read,
            None => {
                return Err(SyntaxError::Lex);
            },
        };
        seen.insert(text_of(chars, at, equals), value);
        if end >= chars.len() {
            return Ok(seen);
        }
        if chars[end] != ',' {
            return Err(SyntaxError::AttributeSyntax);
        }
        proof {
            assert(chars@.skip(end as int).skip(1) =~= chars@.skip(end + 1));
        }
        at = end + 1;
    }
}

/// Reads an attribute list `KEY=VALUE,KEY=VALUE,...` of one attribute or more.
/// The empty text, and a text that ends on a comma, are refused as malformed.
pub fn parse_attributes(value: &str) -> (r: Result<AttributeMap, SyntaxError>)
    ensures
        ok_view(r) == attributes(value@),
{
    let chars = chars_of(value);
    assert(chars@.skip(0) =~= chars@);
    attributes_at(chars.as_slice(), 0)
}

} // verus!
