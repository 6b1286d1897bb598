//! HTTP options: key/value pairs, and the query strings that they make.
use crate::decimal;
use crate::decimal::parse_u32;
use vstd::prelude::*;

verus! {

/// The key of the option that sets how many items a page holds.
pub const PAGE_SIZE_KEY: &'static str = "page[size]";

/// The page size that is asked for where no option sets one, as a number.
pub const DEFAULT_PAGE_SIZE: u32 = 100;

/// The page size that is asked for where no option sets one, as text.
pub const DEFAULT_PAGE_SIZE_TEXT: &'static str = "100";

/// `String::from` on a `&str`. Trusted: the new string holds the same characters.
pub assume_specification<'a>[ <String as From<&'a str>>::from ](text: &str) -> (string: String)
    ensures
        string@ == text@,
;

/// `From::from` from a type to itself, which is how a `String` is made into one. Trusted: it gives
/// back its argument.
pub assume_specification<Kept>[ <Kept as From<Kept>>::from ](value: Kept) -> (same: Kept)
    ensures
        same == value,
;

/// A key and a value, as text.
pub type Pair = (Seq<char>, Seq<char>);

/// Key/value pair holder to represent HTTP options. Best constructed using the `new()` method.
///
/// ```
/// # use fast42::HttpOption;
/// let options = [
///     HttpOption::new("campus_id", "14"),
///     HttpOption::new("cursus_id", "21"),
/// ];
/// ```
#[derive(Debug)]
pub struct HttpOption {
    key: String,
    value: String,
}

impl View for HttpOption {
    type V = Pair;

    closed spec fn view(&self) -> Pair {
        (self.key@, self.value@)
    }
}

impl Clone for HttpOption {
    fn clone(&self) -> (copy: Self)
        ensures
            copy@ == self@,
    {
        HttpOption { key: self.key.clone(), value: self.value.clone() }
    }
}

impl HttpOption {
    /// The key, as the string that it is held in.
    pub closed spec fn key(self) -> String {
        self.key
    }

    /// The value, as the string that it is held in.
    pub closed spec fn value(self) -> String {
        self.value
    }

    /// Creates a new HttpOption.
    pub fn new<T: Into<String>>(key: T, value: T) -> (option: Self)
        ensures
            call_ensures(<T as Into<String>>::into, (key,), option.key()),
            call_ensures(<T as Into<String>>::into, (value,), option.value()),
            option@ == (option.key()@, option.value()@),
    {
        HttpOption { key: key.into(), value: value.into() }
    }
}

/// The pairs of a sequence of options.
pub open spec fn option_pairs(options: Seq<HttpOption>) -> Seq<Pair> {
    options.map_values(|option: HttpOption| option@)
}

/// The pairs of a sequence of string tuples.
pub open spec fn entry_pairs(entries: Seq<(String, String)>) -> Seq<Pair> {
    entries.map_values(|entry: (String, String)| (entry.0@, entry.1@))
}

/// One option as it stands in a query string: `?key=value` where it is the first one,
/// `&key=value` elsewhere.
pub open spec fn query_part(pair: Pair, first: bool) -> Seq<char> {
    (if first {
        "?"@
    } else {
        "&"@
    }) + pair.0 + "="@ + pair.1
}

/// The query string that holds `pairs` in their order.
pub open spec fn query_string(pairs: Seq<Pair>) -> Seq<char>
    decreases pairs.len(),
{
    if pairs.len() == 0 {
        Seq::empty()
    } else {
        query_string(pairs.drop_last()) + query_part(pairs.last(), pairs.len() == 1)
    }
}

fn append_query_part(query: &mut String, key: &str, value: &str, first: bool)
    ensures
        final(query)@ == old(query)@ + query_part((key@, value@), first),
{
    let ghost start = query@;
    if first {
        query.append("?");
    } else {
        query.append("&");
    }
    query.append(key);
    query.append("=");
    query.append(value);
    assert(query@ =~= start + query_part((key@, value@), first));
}

/// The query string of `options`, empty where there are none.
pub fn format_options(options: Vec<HttpOption>) -> (query: String)
    ensures
        query@ == query_string(option_pairs(options@)),
{
    let ghost pairs = option_pairs(options@);
    let mut query = String::new();
    let mut i: usize = 0;
    while i < options.len()
        invariant
            i <= options.len(),
            pairs == option_pairs(options@),
            query@ == query_string(pairs.take(i as int)),
        decreases options.len() - i,
    {
        append_query_part(&mut query, options[i].key.as_str(), options[i].value.as_str(), i == 0);
        proof {
            let taken = pairs.take(i + 1);
            assert(taken.drop_last() =~= pairs.take(i as int));
            assert(taken.last() == options@[i as int]@);
        }
        i += 1;
    }
    assert(pairs.take(i as int) =~= pairs);
    query
}

/// The query string of `entries`, whatever their order, empty where there are none.
pub fn format_options_from_map(entries: Vec<(String, String)>) -> (query: String)
    ensures
        query@ == query_string(entry_pairs(entries@)),
{
    let ghost pairs = entry_pairs(entries@);
    let mut query = String::new();
    let mut i: usize = 0;
    while i < entries.len()
        invariant
            i <= entries.len(),
            pairs == entry_pairs(entries@),
            query@ == query_string(pairs.take(i as int)),
        decreases entries.len() - i,
    {
        append_query_part(&mut query, entries[i].0.as_str(), entries[i].1.as_str(), i == 0);
        proof {
            let taken = pairs.take(i + 1);
            assert(taken.drop_last() =~= pairs.take(i as int));
        }
        i += 1;
    }
    assert(pairs.take(i as int) =~= pairs);
    query
}

/// Whether one of `pairs` has the key `key`.
pub open spec fn has_key(pairs: Seq<Pair>, key: Seq<char>) -> bool {
    exists|i: int| 0 <= i < pairs.len() && (#[trigger] pairs[i]).0 == key
}

/// Whether no key occurs twice.
pub open spec fn distinct_keys(pairs: Seq<Pair>) -> bool {
    forall|i: int, j: int|
        0 <= i < j < pairs.len() ==> (#[trigger] pairs[i]).0 != (#[trigger] pairs[j]).0
}

/// `pairs` with `key` set to `value`: in its old place where the key is there, at the end where it
/// is not.
pub open spec fn put(pairs: Seq<Pair>, key: Seq<char>, value: Seq<char>) -> Seq<Pair> {
    if has_key(pairs, key) {
        pairs.map_values(
            |pair: Pair|
                if pair.0 == key {
                    (key, value)
                } else {
                    pair
                },
        )
    } else {
        pairs.push((key, value))
    }
}

/// `pairs` with each of `options` put into it, in order.
pub open spec fn put_all(pairs: Seq<Pair>, options: Seq<Pair>) -> Seq<Pair>
    decreases options.len(),
{
    if options.len() == 0 {
        pairs
    } else {
        put(put_all(pairs, options.drop_last()), options.last().0, options.last().1)
    }
}

/// The value that `options` give for `key`: that of the last option with this key.
pub open spec fn given(options: Seq<Pair>, key: Seq<char>) -> Option<Seq<char>>
    decreases options.len(),
{
    if options.len() == 0 {
        None
    } else if options.last().0 == key {
        Some(options.last().1)
    } else {
        given(options.drop_last(), key)
    }
}

/// The options of a request for pages: `options` over the default page size.
pub open spec fn page_options(options: Seq<Pair>) -> Seq<Pair> {
    put_all(seq![(PAGE_SIZE_KEY@, DEFAULT_PAGE_SIZE_TEXT@)], options)
}

/// The page size that `options` ask for. A size that is not a number is ignored.
pub open spec fn page_size(options: Seq<Pair>) -> u32 {
    match given(options, PAGE_SIZE_KEY@) {
        Some(text) => match decimal::parsed_u32(text) {
            Some(size) => size,
            None => DEFAULT_PAGE_SIZE,
        },
        None => DEFAULT_PAGE_SIZE,
    }
}

/// Options by key: a key occurs once, and entries keep the order in which their keys came.
struct OptionMap {
    entries: Vec<(String, String)>,
}

impl View for OptionMap {
    type V = Seq<Pair>;

    closed spec fn view(&self) -> Seq<Pair> {
        entry_pairs(self.entries@)
    }
}

impl OptionMap {
    spec fn well_formed(self) -> bool {
        distinct_keys(self@)
    }

    fn new() -> (map: Self)
        ensures
            map.well_formed(),
            map@ == Seq::<Pair>::empty(),
    {
        let map = OptionMap { entries: Vec::new() };
        assert(map@ =~= Seq::<Pair>::empty());
        map
    }

    fn position(&self, key: &String) -> (index: Option<usize>)
        ensures
            match index {
                Some(i) => i < self@.len() && self@[i as int].0 == key@,
                None => !has_key(self@, key@),
            },
    {
        let mut i: usize = 0;
        while i < self.entries.len()
            invariant
                i <= self.entries.len(),
                forall|j: int| 0 <= j < i ==> (#[trigger] self@[j]).0 != key@,
            decreases self.entries.len() - i,
        {
            if self.entries[i].0 == *key {
                return Some(i);
            }
            i += 1;
        }
        None
    }

    fn insert(&mut self, key: String, value: String)
        requires
            old(self).well_formed(),
        ensures
            final(self).well_formed(),
            final(self)@ == put(old(self)@, key@, value@),
    {
        let ghost before = self@;
        let ghost pair = (key@, value@);
        match self.position(&key) {
            Some(i) => {
                self.entries.set(i, (key, value));
                assert(before[i as int].0 == pair.0);
                assert(self@ =~= before.update(i as int, pair));
                assert(self@ =~= put(before, pair.0, pair.1));
            },
            None => {
                self.entries.push((key, value));
                assert(self@ =~= before.push(pair));
            },
        }
    }

    fn get(&self, key: &String) -> (value: Option<&String>)
        ensures
            match value {
                Some(text) => exists|i: int|
                    0 <= i < self@.len() && #[trigger] self@[i] == (key@, text@),
                None => !has_key(self@, key@),
            },
    {
        match self.position(key) {
            Some(i) => {
                assert(self@[i as int] == (key@, self.entries[i as int].1@));
                Some(&self.entries[i].1)
            },
            None => None,
        }
    }
}

/// Puts `options` over the default page size, and gives the query string of what comes out
/// together with the page size that it asks for.
pub fn get_options_string_and_page_size(options: Vec<HttpOption>) -> (result: (String, u32))
    ensures
        result.0@ == query_string(page_options(option_pairs(options@))),
        result.1 == page_size(option_pairs(options@)),
{
    let ghost pairs = option_pairs(options@);
    let ghost base = seq![(PAGE_SIZE_KEY@, DEFAULT_PAGE_SIZE_TEXT@)];
    let key: String = PAGE_SIZE_KEY.into();
    let mut size: u32 = DEFAULT_PAGE_SIZE;
    let mut map = OptionMap::new();
    map.insert(PAGE_SIZE_KEY.into(), DEFAULT_PAGE_SIZE_TEXT.into());
    assert(map@ =~= base);
    for option in iter: options
        invariant
            iter.seq() == options@,
            pairs == option_pairs(options@),
            map.well_formed(),
            map@ == put_all(base, pairs.take(iter.index() as int)),
    {
        map.insert(option.key, option.value);
        proof {
            let taken = pairs.take(iter.index() + 1);
            assert(taken.drop_last() =~= pairs.take(iter.index() as int));
            assert(taken.last() == option@);
        }
    }
    assert(pairs.take(options@.len() as int) =~= pairs);
    proof {
        lemma_put_all(base, pairs);
        assert(has_key(base, PAGE_SIZE_KEY@)) by {
            assert(base[0].0 == PAGE_SIZE_KEY@);
        }
        lemma_default_page_size();
    }
    if let Some(value) = map.get(&key) {
        if let Ok(new_size) = parse_u32(value.as_str()) {
            size = new_size;
        }
    }
    (format_options_from_map(map.entries), size)
}

/// Whether `options` give a page size that is not a number, and is ignored for that reason.
pub fn page_size_is_ignored(options: &Vec<HttpOption>) -> (ignored: bool)
    ensures
        ignored == (given(option_pairs(options@), PAGE_SIZE_KEY@) matches Some(text)
            && decimal::parsed_u32(text) is None),
{
    let ghost pairs = option_pairs(options@);
    let key: String = PAGE_SIZE_KEY.into();
    let mut i: usize = options.len();
    assert(pairs.take(i as int) =~= pairs);
    while i > 0
        invariant
            i <= options.len(),
            pairs == option_pairs(options@),
            key@ == PAGE_SIZE_KEY@,
            given(pairs, PAGE_SIZE_KEY@) == given(pairs.take(i as int), PAGE_SIZE_KEY@),
        decreases i,
    {
        i -= 1;
        proof {
            let taken = pairs.take(i + 1);
            assert(taken.drop_last() =~= pairs.take(i as int));
            assert(taken.last() == options@[i as int]@);
        }
        if options[i].key == key {
            return parse_u32(options[i].value.as_str()).is_err();
        }
    }
    false
}

proof fn lemma_default_page_size()
    ensures
        decimal::parsed_u32(DEFAULT_PAGE_SIZE_TEXT@) == Some(DEFAULT_PAGE_SIZE),
{
    let text = DEFAULT_PAGE_SIZE_TEXT@;
    reveal_strlit("100");
    assert(text =~= seq!['1', '0', '0']);
    assert(decimal::unsigned(text) == text);
    assert(text.drop_last() =~= seq!['1', '0']);
    assert(text.drop_last().drop_last() =~= seq!['1']);
    assert(text.drop_last().drop_last().drop_last() =~= Seq::empty());
    reveal_with_fuel(decimal::number, 4);
}

proof fn lemma_put(pairs: Seq<Pair>, key: Seq<char>, value: Seq<char>)
    requires
        distinct_keys(pairs),
    ensures
        distinct_keys(put(pairs, key, value)),
        forall|other: Seq<char>|
            #![trigger has_key(put(pairs, key, value), other)]
            has_key(put(pairs, key, value), other) <==> has_key(pairs, other) || other == key,
        forall|i: int|
            0 <= i < put(pairs, key, value).len() ==> {
                let pair = #[trigger] put(pairs, key, value)[i];
                if pair.0 == key {
                    pair.1 == value
                } else {
                    pairs.contains(pair)
                }
            },
        pairs.len() <= put(pairs, key, value).len(),
        forall|i: int|
            0 <= i < pairs.len() ==> (#[trigger] put(pairs, key, value)[i]).0 == pairs[i].0,
{
    let after = put(pairs, key, value);
    assert forall|other: Seq<char>|
        #![trigger has_key(after, other)]
        has_key(after, other) <==> has_key(pairs, other) || other == key by {
        if has_key(pairs, other) {
            let i = choose|i: int| 0 <= i < pairs.len() && (#[trigger] pairs[i]).0 == other;
            assert(after[i].0 == other);
        }
        if other == key && !has_key(pairs, key) {
            assert(after[pairs.len() as int].0 == key);
        }
        if has_key(after, other) {
            let i = choose|i: int| 0 <= i < after.len() && (#[trigger] after[i]).0 == other;
            if i < pairs.len() {
                assert(pairs[i].0 == other);
            }
        }
    }
    assert forall|i: int| 0 <= i < after.len() implies {
        let pair = #[trigger] after[i];
        if pair.0 == key {
            pair.1 == value
        } else {
            pairs.contains(pair)
        }
    } by {
        if i < pairs.len() {
            if !has_key(pairs, key) {
                assert(pairs[i].0 != key);
            }
            if after[i].0 != key {
                assert(pairs[i] == after[i]);
            }
        }
    }
    assert forall|i: int, j: int| 0 <= i < j < after.len() implies (#[trigger] after[i]).0 != (
    #[trigger] after[j]).0 by {
        assert(pairs[i].0 == after[i].0);
        if j < pairs.len() {
            assert(pairs[j].0 == after[j].0);
        }
    }
}

proof fn lemma_put_all(pairs: Seq<Pair>, options: Seq<Pair>)
    requires
        distinct_keys(pairs),
    ensures
        distinct_keys(put_all(pairs, options)),
        forall|key: Seq<char>|
            #![trigger has_key(put_all(pairs, options), key)]
            #![trigger given(options, key)]
            has_key(put_all(pairs, options), key) <==> has_key(pairs, key) || given(
                options,
                key,
            ) is Some,
        forall|i: int|
            0 <= i < put_all(pairs, options).len() ==> {
                let pair = #[trigger] put_all(pairs, options)[i];
                match given(options, pair.0) {
                    Some(value) => pair.1 == value,
                    None => pairs.contains(pair),
                }
            },
        pairs.len() <= put_all(pairs, options).len(),
        forall|i: int|
            0 <= i < pairs.len() ==> (#[trigger] put_all(pairs, options)[i]).0 == pairs[i].0,
    decreases options.len(),
{
    if options.len() > 0 {
        let before = put_all(pairs, options.drop_last());
        let after = put_all(pairs, options);
        let (key, value) = options.last();
        lemma_put_all(pairs, options.drop_last());
        lemma_put(before, key, value);
        assert forall|i: int| 0 <= i < after.len() implies {
            let pair = #[trigger] after[i];
            match given(options, pair.0) {
                Some(value) => pair.1 == value,
                None => pairs.contains(pair),
            }
        } by {
            let pair = after[i];
            if pair.0 != key {
                assert(before.contains(pair));
                let j = choose|j: int| 0 <= j < before.len() && before[j] == pair;
                assert(before[j] == pair);
            }
        }
        assert forall|i: int| 0 <= i < pairs.len() implies (#[trigger] after[i]).0
            == pairs[i].0 by {
            assert(before[i].0 == pairs[i].0);
        }
    }
}

/// No key occurs twice among the options of a request for pages, however often it was given.
pub proof fn law_page_options_have_distinct_keys(options: Seq<Pair>)
    ensures
        distinct_keys(page_options(options)),
{
    lemma_put_all(seq![(PAGE_SIZE_KEY@, DEFAULT_PAGE_SIZE_TEXT@)], options);
}

/// A request for pages carries exactly the keys that were given and the page size. Each has the
/// value that was given last; a page size that was not given is the default one.
pub proof fn law_page_options_hold_last_given(options: Seq<Pair>, key: Seq<char>, value: Seq<char>)
    ensures
        page_options(options).contains((key, value)) <==> match given(options, key) {
            Some(last) => value == last,
            None => key == PAGE_SIZE_KEY@ && value == DEFAULT_PAGE_SIZE_TEXT@,
        },
{
    let base = seq![(PAGE_SIZE_KEY@, DEFAULT_PAGE_SIZE_TEXT@)];
    let all = page_options(options);
    lemma_put_all(base, options);
    if all.contains((key, value)) {
        let i = choose|i: int| 0 <= i < all.len() && all[i] == (key, value);
        assert(all[i] == (key, value));
        assert(given(options, key) is None ==> base.contains((key, value)));
    }
    if given(options, key) is Some || key == PAGE_SIZE_KEY@ {
        assert(base[0].0 == PAGE_SIZE_KEY@);
        assert(has_key(all, key));
        let i = choose|i: int| 0 <= i < all.len() && (#[trigger] all[i]).0 == key;
        if given(options, key) is None {
            assert(base.contains(all[i]));
        }
        assert(all.contains(all[i]));
    }
}

/// The page size stands first in the query string of a request for pages, and the number that it
/// is read as is the one that it is written as there, or the default where it is no number.
pub proof fn law_page_size_is_the_one_asked_for(options: Seq<Pair>)
    ensures
        page_options(options).len() > 0,
        page_options(options)[0].0 == PAGE_SIZE_KEY@,
        page_size(options) == match decimal::parsed_u32(page_options(options)[0].1) {
            Some(size) => size,
            None => DEFAULT_PAGE_SIZE,
        },
{
    let base = seq![(PAGE_SIZE_KEY@, DEFAULT_PAGE_SIZE_TEXT@)];
    lemma_put_all(base, options);
    lemma_default_page_size();
    let first = page_options(options)[0];
    assert(first.0 == base[0].0);
}

/// One more option behind the others makes the query string longer by that option.
pub proof fn law_query_string_grows_at_the_end(pairs: Seq<Pair>, pair: Pair)
    ensures
        query_string(pairs.push(pair)) == query_string(pairs) + query_part(pair, pairs.len() == 0),
{
    assert(pairs.push(pair).drop_last() =~= pairs);
}

/// Options and entries are taken as they are, all of them and in their order.
pub proof fn law_pairs_are_those_given(options: Seq<HttpOption>, entries: Seq<(String, String)>)
    ensures
        option_pairs(options).len() == options.len(),
        forall|i: int|
            0 <= i < options.len() ==> #[trigger] option_pairs(options)[i] == (
                options[i].key()@,
                options[i].value()@,
            ),
        entry_pairs(entries).len() == entries.len(),
        forall|i: int|
            0 <= i < entries.len() ==> #[trigger] entry_pairs(entries)[i] == (
                entries[i].0@,
                entries[i].1@,
            ),
{
}

/// A query string is made option by option: without any it is empty, and each one adds `?` where it
/// is the first and `&` where it is not, its key, `=` and its value, whole, and nothing else.
pub proof fn law_every_option_stands_in_the_query(pairs: Seq<Pair>, i: int)
    requires
        0 <= i < pairs.len(),
    ensures
        query_string(pairs.take(0)) == Seq::<char>::empty(),
        query_string(pairs.take(i + 1)) == query_string(pairs.take(i)) + (if i == 0 {
            "?"@
        } else {
            "&"@
        }) + pairs[i].0 + "="@ + pairs[i].1,
        query_string(pairs.take(i + 1)).is_prefix_of(query_string(pairs)),
        pairs.take(pairs.len() as int) == pairs,
    decreases pairs.len() - i,
{
    let taken = pairs.take(i + 1);
    assert(taken.drop_last() =~= pairs.take(i));
    assert(query_string(taken) =~= query_string(pairs.take(i)) + (if i == 0 {
        "?"@
    } else {
        "&"@
    }) + pairs[i].0 + "="@ + pairs[i].1);
    assert(pairs.take(pairs.len() as int) =~= pairs);
    if i + 1 < pairs.len() {
        law_every_option_stands_in_the_query(pairs, i + 1);
        let longer = query_string(pairs.take(i + 2));
        assert(query_string(taken).is_prefix_of(longer));
    }
}

/// Whether a text holds none of the characters that part a query string.
pub open spec fn is_plain(text: Seq<char>) -> bool {
    forall|i: int|
        0 <= i < text.len() ==> (#[trigger] text[i]) != '?' && text[i] != '&' && text[i] != '='
}

proof fn lemma_query_shape(pairs: Seq<Pair>)
    requires
        pairs.len() > 0,
    ensures
        ({
            let query = query_string(pairs);
            let before = query_string(pairs.drop_last());
            let (key, value) = pairs.last();
            let start = before.len() as int;
            &&& query.len() == start + 2 + key.len() + value.len()
            &&& query.take(start) == before
            &&& query[start] == '?' || query[start] == '&'
            &&& query.subrange(start + 1, start + 1 + key.len()) == key
            &&& query[start + 1 + key.len()] == '='
            &&& query.skip(start + 2 + key.len()) == value
        }),
{
    reveal_strlit("?");
    reveal_strlit("&");
    reveal_strlit("=");
    let query = query_string(pairs);
    let before = query_string(pairs.drop_last());
    let (key, value) = pairs.last();
    let start = before.len() as int;
    assert(query.take(start) =~= before);
    assert(query.subrange(start + 1, start + 1 + key.len()) =~= key);
    assert(query.skip(start + 2 + key.len()) =~= value);
}

proof fn lemma_query_parts_line_up(a: Seq<Pair>, b: Seq<Pair>)
    requires
        a.len() > 0,
        b.len() > 0,
        is_plain(a.last().0),
        is_plain(a.last().1),
        is_plain(b.last().0),
        query_string(a) == query_string(b),
    ensures
        query_string(a.drop_last()).len() >= query_string(b.drop_last()).len(),
        query_string(a.drop_last()).len() == query_string(b.drop_last()).len()
            ==> a.last().0.len() >= b.last().0.len(),
{
    lemma_query_shape(a);
    lemma_query_shape(b);
    let query = query_string(a);
    let (key, value) = a.last();
    let start = query_string(a.drop_last()).len() as int;
    let other = query_string(b.drop_last()).len() as int;
    if start < other {
        if other < start + 1 + key.len() {
            assert(query[other] == key[other - start - 1]);
        } else if other > start + 1 + key.len() {
            assert(query[other] == value[other - start - 2 - key.len()]);
        }
        assert(false);
    }
    if start == other && key.len() < b.last().0.len() {
        assert(query[start + 1 + key.len()] == b.last().0[key.len() as int]);
        assert(false);
    }
}

/// A query string gives back the options that it was made of, all of them and in their order, where
/// no key and no value holds `?`, `&` or `=`: two lists of such options with one query string are the
/// same list.
pub proof fn law_query_string_reads_back(a: Seq<Pair>, b: Seq<Pair>)
    requires
        forall|i: int|
            0 <= i < a.len() ==> is_plain((#[trigger] a[i]).0) && is_plain(a[i].1),
        forall|i: int|
            0 <= i < b.len() ==> is_plain((#[trigger] b[i]).0) && is_plain(b[i].1),
        query_string(a) == query_string(b),
    ensures
        a == b,
    decreases a.len(),
{
    if a.len() > 0 {
        lemma_query_shape(a);
    }
    if b.len() > 0 {
        lemma_query_shape(b);
    }
    if a.len() > 0 && b.len() > 0 {
        assert(a.last() == a[a.len() - 1]);
        assert(b.last() == b[b.len() - 1]);
        lemma_query_parts_line_up(a, b);
        lemma_query_parts_line_up(b, a);
        assert(a.last() == b.last());
        assert forall|i: int| 0 <= i < a.drop_last().len() implies is_plain(
            (#[trigger] a.drop_last()[i]).0,
        ) && is_plain(a.drop_last()[i].1) by {
            assert(a.drop_last()[i] == a[i]);
        }
        assert forall|i: int| 0 <= i < b.drop_last().len() implies is_plain(
            (#[trigger] b.drop_last()[i]).0,
        ) && is_plain(b.drop_last()[i].1) by {
            assert(b.drop_last()[i] == b[i]);
        }
        law_query_string_reads_back(a.drop_last(), b.drop_last());
        assert(a =~= a.drop_last().push(a.last()));
        assert(b =~= b.drop_last().push(b.last()));
    } else {
        assert(a =~= b);
    }
}

/// Whether the option at `i` is the last one with its key.
pub open spec fn is_last_of_its_key(options: Seq<Pair>, i: int) -> bool {
    &&& 0 <= i < options.len()
    &&& forall|j: int| i < j < options.len() ==> (#[trigger] options[j]).0 != options[i].0
}

/// The value given for a key is that of the last option with it, where there is one.
pub proof fn law_last_value_is_the_one_given(options: Seq<Pair>, key: Seq<char>, i: int)
    ensures
        is_last_of_its_key(options, i) && options[i].0 == key ==> given(options, key) == Some(
            options[i].1,
        ),
        (forall|j: int| 0 <= j < options.len() ==> (#[trigger] options[j]).0 != key) ==> given(
            options,
            key,
        ) is None,
    decreases options.len(),
{
    if options.len() > 0 {
        let rest = options.drop_last();
        let last = options.len() - 1;
        law_last_value_is_the_one_given(rest, key, i);
        assert(options[last] == options.last());
        if is_last_of_its_key(options, i) && options[i].0 == key && i < last {
            assert(rest[i] == options[i]);
            assert(is_last_of_its_key(rest, i)) by {
                assert forall|j: int| i < j < rest.len() implies (#[trigger] rest[j]).0
                    != rest[i].0 by {
                    assert(rest[j] == options[j]);
                }
            }
        }
        if forall|j: int| 0 <= j < options.len() ==> (#[trigger] options[j]).0 != key {
            assert forall|j: int| 0 <= j < rest.len() implies (#[trigger] rest[j]).0 != key by {
                assert(rest[j] == options[j]);
            }
        }
    }
}

proof fn lemma_given_stands_somewhere(options: Seq<Pair>, key: Seq<char>)
    ensures
        match given(options, key) {
            Some(value) => exists|i: int|
                #[trigger] is_last_of_its_key(options, i) && options[i] == (key, value),
            None => forall|j: int| 0 <= j < options.len() ==> (#[trigger] options[j]).0 != key,
        },
    decreases options.len(),
{
    if options.len() > 0 {
        let rest = options.drop_last();
        let last = options.len() - 1;
        assert(options[last] == options.last());
        if options.last().0 == key {
            assert(is_last_of_its_key(options, last));
        } else {
            lemma_given_stands_somewhere(rest, key);
            match given(rest, key) {
                Some(value) => {
                    let i = choose|i: int|
                        #[trigger] is_last_of_its_key(rest, i) && rest[i] == (key, value);
                    assert(options[i] == rest[i]);
                    assert(is_last_of_its_key(options, i)) by {
                        assert forall|j: int| i < j < options.len() implies (#[trigger] options[j]).0
                            != options[i].0 by {
                            if j < last {
                                assert(options[j] == rest[j]);
                            }
                        }
                    }
                },
                None => {
                    assert forall|j: int| 0 <= j < options.len() implies (#[trigger] options[j]).0
                        != key by {
                        if j < last {
                            assert(options[j] == rest[j]);
                        }
                    }
                },
            }
        }
    }
}

/// A request for pages carries the last option of every key that is given, as it was given.
pub proof fn law_last_option_of_each_key_is_sent(options: Seq<Pair>, i: int)
    requires
        0 <= i < options.len(),
        forall|j: int| i < j < options.len() ==> (#[trigger] options[j]).0 != options[i].0,
    ensures
        page_options(options).contains(options[i]),
{
    assert(is_last_of_its_key(options, i));
    law_last_value_is_the_one_given(options, options[i].0, i);
    law_page_options_hold_last_given(options, options[i].0, options[i].1);
}

/// A request for pages carries a page size of 100 where none is given, and reckons with it.
pub proof fn law_page_size_is_sent_where_none_is_given(options: Seq<Pair>)
    requires
        forall|j: int| 0 <= j < options.len() ==> (#[trigger] options[j]).0 != "page[size]"@,
    ensures
        page_options(options).contains(("page[size]"@, "100"@)),
        page_size(options) == 100,
{
    law_last_value_is_the_one_given(options, "page[size]"@, 0);
    law_page_options_hold_last_given(options, "page[size]"@, "100"@);
}

/// A request for pages carries nothing else, and no key twice.
pub proof fn law_nothing_else_is_sent(options: Seq<Pair>, pair: Pair)
    requires
        page_options(options).contains(pair),
    ensures
        options.contains(pair) || (pair == ("page[size]"@, "100"@) && forall|j: int|
            0 <= j < options.len() ==> (#[trigger] options[j]).0 != "page[size]"@),
        exists|i: int|
            0 <= i < page_options(options).len() && #[trigger] page_options(options)[i] == pair
                && forall|j: int|
                0 <= j < page_options(options).len() && j != i ==> (#[trigger] page_options(
                    options,
                )[j]).0 != pair.0,
{
    let all = page_options(options);
    law_page_options_hold_last_given(options, pair.0, pair.1);
    lemma_given_stands_somewhere(options, pair.0);
    law_page_options_have_distinct_keys(options);
    if given(options, pair.0) is Some {
        let i = choose|i: int|
            #[trigger] is_last_of_its_key(options, i) && options[i] == (pair.0, pair.1);
        assert(options.contains(options[i]));
    }
    let i = choose|i: int| 0 <= i < all.len() && all[i] == pair;
    assert forall|j: int| 0 <= j < all.len() && j != i implies (#[trigger] all[j]).0
        != pair.0 by {
        assert(all[i].0 == pair.0);
    }
}

/// The page size that is reckoned with is the last one given, read as a number, or 100 where that is
/// no number.
pub proof fn law_last_page_size_is_reckoned_with(options: Seq<Pair>, i: int)
    requires
        0 <= i < options.len(),
        options[i].0 == "page[size]"@,
        forall|j: int| i < j < options.len() ==> (#[trigger] options[j]).0 != "page[size]"@,
    ensures
        decimal::parsed_u32(options[i].1) matches Some(size) ==> page_size(options) == size,
        decimal::parsed_u32(options[i].1) is None ==> page_size(options) == 100,
{
    assert(is_last_of_its_key(options, i));
    law_last_value_is_the_one_given(options, "page[size]"@, i);
}

} // verus!
