//! Endpoints that answer page by page.
use crate::decimal;
use crate::decimal::{parse_u32, to_decimal};
use crate::headers;
use crate::headers::{get_header, header_text};
use crate::option;
use reqwest::header::{HeaderMap, HeaderValue, ToStrError};
use std::num::ParseIntError;
use vstd::prelude::*;

verus! {

/// The header of a response that says how many items an endpoint has, over all its pages.
pub const TOTAL_HEADER: &'static str = "x-total";

/// The key of the option that says which page is asked for.
pub const PAGE_NUMBER_KEY: &'static str = "page[number]";

/// The number of the first page.
pub const FIRST_PAGE: u32 = 1;

/// Why the number of pages of an endpoint cannot be told.
#[derive(Debug)]
pub enum TotalError {
    /// The header is not text.
    NotText(ToStrError),
    /// The header is text, but not a number.
    NotNumber(ParseIntError),
}

/// Why the first page does not tell how many pages there are.
#[derive(Debug)]
pub enum FirstPageError {
    /// The header is not there.
    Missing,
    /// The header cannot be read.
    Unreadable(TotalError),
}

/// How many pages of `size` items it takes to hold `total` items.
pub open spec fn page_count(total: nat, size: nat) -> nat
    recommends
        size > 0,
{
    ((total + size - 1) / size as int) as nat
}

/// An endpoint that is fetched page by page, with its query string but for the page number.
#[derive(Debug)]
pub struct PagedEndpoint {
    pub endpoint: String,
    pub options: String,
    pub page_size: u32,
}

/// Finds the header that says how many items an endpoint has.
pub fn total_header(headers: &HeaderMap<HeaderValue>) -> (total: Option<&HeaderValue>)
    ensures
        match total {
            Some(value) => {
                &&& headers::first_values(*headers).contains_key(TOTAL_HEADER@)
                &&& headers::first_values(*headers)[TOTAL_HEADER@] == headers::header_bytes(*value)
            },
            None => !headers::first_values(*headers).contains_key(TOTAL_HEADER@),
        },
{
    get_header(headers, TOTAL_HEADER)
}

/// Reads how many items an endpoint has.
pub fn parse_total(text: &str) -> (total: Result<u32, ParseIntError>)
    ensures
        match total {
            Ok(items) => decimal::parsed_u32(text@) == Some(items),
            Err(error) => {
                &&& decimal::parsed_u32(text@) is None
                &&& error == decimal::parse_error(text@)
            },
        },
{
    parse_u32(text)
}

/// What the bytes of a header say: a number of items, or why they do not say one.
pub open spec fn total_of(bytes: Seq<u8>) -> Result<u32, TotalError> {
    let text = headers::ascii_text(bytes);
    if !headers::all_visible(bytes) {
        Err(TotalError::NotText(headers::to_str_error(bytes)))
    } else {
        match decimal::parsed_u32(text) {
            Some(items) => Ok(items),
            None => Err(TotalError::NotNumber(decimal::parse_error(text))),
        }
    }
}

/// Reads how many items an endpoint has off the header that says so.
pub fn read_total(value: &HeaderValue) -> (total: Result<u32, TotalError>)
    ensures
        total == total_of(headers::header_bytes(*value)),
{
    match header_text(value) {
        Ok(text) => match parse_total(text) {
            Ok(items) => Ok(items),
            Err(error) => Err(TotalError::NotNumber(error)),
        },
        Err(error) => Err(TotalError::NotText(error)),
    }
}

/// How many items an endpoint has, by the headers of its first page, or why they do not tell.
pub open spec fn stated_total(response: HeaderMap<HeaderValue>) -> Result<u32, FirstPageError> {
    let values = headers::first_values(response);
    if values.contains_key(TOTAL_HEADER@) {
        match total_of(values[TOTAL_HEADER@]) {
            Ok(items) => Ok(items),
            Err(error) => Err(FirstPageError::Unreadable(error)),
        }
    } else {
        Err(FirstPageError::Missing)
    }
}

/// Reads how many items an endpoint has off the headers of its first page.
pub fn first_page_total(response: &HeaderMap<HeaderValue>) -> (total: Result<u32, FirstPageError>)
    ensures
        total == stated_total(*response),
{
    match total_header(response) {
        Some(value) => match read_total(value) {
            Ok(items) => Ok(items),
            Err(error) => Err(FirstPageError::Unreadable(error)),
        },
        None => Err(FirstPageError::Missing),
    }
}

/// Decides, by the headers of the first page, how many pages there are, and which endpoints the
/// pages behind the first one have.
pub fn after_first_page(paged: &PagedEndpoint, response: &HeaderMap<HeaderValue>) -> (next: Result<
    (u32, Vec<String>),
    FirstPageError,
>)
    requires
        paged.page_size > 0,
    ensures
        match stated_total(*response) {
            Ok(total) => {
                &&& next matches Ok((count, others))
                &&& count == page_count(total as nat, paged.page_size as nat)
                &&& others@.map_values(|endpoint: String| endpoint@) == paged.other_page_endpoints(
                    count as nat,
                )
            },
            Err(error) => next == Err::<(u32, Vec<String>), FirstPageError>(error),
        },
{
    match first_page_total(response) {
        Ok(total) => {
            let count: u32 = paged.page_count(total);
            Ok((count, paged.other_pages(count)))
        },
        Err(error) => Err(error),
    }
}

proof fn lemma_page_count(total: nat, size: nat)
    requires
        size > 0,
    ensures
        page_count(total, size) == total / size + (if total % size == 0 {
            0int
        } else {
            1int
        }),
        page_count(total, size) <= total,
{
    let full = (total / size) as int;
    let rest = (total % size) as int;
    let size = size as int;
    let total = total as int;
    assert(total == full * size + rest && 0 <= rest < size) by {
        vstd::arithmetic::div_mod::lemma_fundamental_div_mod(total, size);
        vstd::arithmetic::mul::lemma_mul_is_commutative(full, size);
        vstd::arithmetic::div_mod::lemma_mod_bound(total, size);
    }
    if rest == 0 {
        assert(total + size - 1 == full * size + (size - 1));
        vstd::arithmetic::div_mod::lemma_fundamental_div_mod_converse(
            total + size - 1,
            size,
            full,
            size - 1,
        );
    } else {
        assert((full + 1) * size == full * size + size) by (nonlinear_arith);
        vstd::arithmetic::div_mod::lemma_fundamental_div_mod_converse(
            total + size - 1,
            size,
            full + 1,
            rest - 1,
        );
    }
    assert(full <= full * size) by (nonlinear_arith)
        requires
            full >= 0,
            size >= 1,
    ;
    vstd::arithmetic::div_mod::lemma_div_pos_is_pos(total, size);
}

impl PagedEndpoint {
    /// The endpoint of one page, with its whole query string.
    pub open spec fn page_endpoint(self, number: nat) -> Seq<char> {
        self.endpoint@ + self.options@ + "&page[number]="@ + decimal::decimal(number)
    }

    /// Writes the endpoint of one page, with its whole query string.
    pub fn page(&self, number: u32) -> (endpoint: String)
        ensures
            endpoint@ == self.page_endpoint(number as nat),
    {
        let mut endpoint = self.endpoint.clone();
        endpoint.append(self.options.as_str());
        endpoint.append("&page[number]=");
        endpoint.append(to_decimal(number).as_str());
        endpoint
    }

    /// How many pages there are, where there are `total` items.
    pub fn page_count(&self, total: u32) -> (count: u32)
        requires
            self.page_size > 0,
        ensures
            count == page_count(total as nat, self.page_size as nat),
    {
        let full: u32 = total / self.page_size;
        let rest: u32 = total % self.page_size;
        proof {
            lemma_page_count(total as nat, self.page_size as nat);
        }
        if rest == 0 {
            full
        } else {
            full + 1
        }
    }

    /// The endpoints of the pages behind the first one, where there are `count` pages in all.
    pub open spec fn other_page_endpoints(self, count: nat) -> Seq<Seq<char>> {
        Seq::new(
            (if count == 0 {
                0
            } else {
                count - 1
            }) as nat,
            |i: int| self.page_endpoint((i + 2) as nat),
        )
    }

    /// Writes the endpoints of the pages behind the first one, where there are `count` pages in all.
    pub fn other_pages(&self, count: u32) -> (endpoints: Vec<String>)
        ensures
            endpoints@.map_values(|endpoint: String| endpoint@) == self.other_page_endpoints(
                count as nat,
            ),
    {
        let mut endpoints: Vec<String> = Vec::new();
        let mut number: u32 = FIRST_PAGE;
        while number < count
            invariant
                FIRST_PAGE <= number,
                number <= count || (count == 0 && number == FIRST_PAGE),
                endpoints@.len() == number - 1,
                forall|i: int|
                    0 <= i < endpoints@.len() ==> (#[trigger] endpoints@[i])@
                        == self.page_endpoint((i + 2) as nat),
            decreases count - number,
        {
            number += 1;
            endpoints.push(self.page(number));
        }
        assert(endpoints@.map_values(|endpoint: String| endpoint@)
            =~= self.other_page_endpoints(count as nat));
        endpoints
    }
}

/// All the pages in order, where there are `count` of them: the first one and then the others.
pub open spec fn collected<R>(count: nat, first: R, others: Seq<R>) -> Seq<R> {
    if count == 0 {
        others
    } else {
        seq![first] + others
    }
}

/// Puts the first page in front of the others, where there are `count` pages in all. An error among
/// the others is the error of the whole.
pub fn collect_pages<R, E>(count: u32, first: R, others: Result<Vec<R>, E>) -> (pages: Result<
    Vec<R>,
    E,
>)
    ensures
        match others {
            Ok(rest) => pages matches Ok(all) && all@ == collected(count as nat, first, rest@),
            Err(error) => pages == Err::<Vec<R>, E>(error),
        },
{
    match others {
        Ok(rest) => {
            let mut all = rest;
            if count > 0 {
                all.insert(0, first);
                assert(all@ =~= collected(count as nat, first, rest@));
            }
            Ok(all)
        },
        Err(error) => Err(error),
    }
}

/// Where each response answers the endpoint that it was asked of, all the pages come out, each once
/// and in the order of their numbers.
pub proof fn law_pages_come_in_order<R>(
    paged: PagedEndpoint,
    count: nat,
    first: R,
    others: Seq<R>,
    answer: spec_fn(Seq<char>) -> R,
)
    requires
        first == answer(paged.page_endpoint(FIRST_PAGE as nat)),
        others == paged.other_page_endpoints(count).map_values(answer),
    ensures
        collected(count, first, others).len() == count,
        forall|i: int|
            0 <= i < count ==> #[trigger] collected(count, first, others)[i] == answer(
                paged.page_endpoint((i + FIRST_PAGE) as nat),
            ),
{
    let all = collected(count, first, others);
    assert forall|i: int| 0 <= i < count implies #[trigger] all[i] == answer(
        paged.page_endpoint((i + FIRST_PAGE) as nat),
    ) by {
        if i > 0 {
            assert(all[i] == others[i - 1]);
        }
    }
}

/// All the pages hold all the items: the page on which an item stands is among those that are
/// counted.
pub proof fn law_every_item_is_on_a_page(total: nat, size: nat, item: nat)
    requires
        size > 0,
        item < total,
    ensures
        FIRST_PAGE <= item / size + 1 <= page_count(total, size),
{
    lemma_page_count(total, size);
    vstd::arithmetic::div_mod::lemma_div_pos_is_pos(item as int, size as int);
    vstd::arithmetic::div_mod::lemma_div_is_ordered(item as int, total as int, size as int);
    if total % size == 0 && item / size == total / size {
        vstd::arithmetic::div_mod::lemma_fundamental_div_mod(item as int, size as int);
        vstd::arithmetic::div_mod::lemma_fundamental_div_mod(total as int, size as int);
        vstd::arithmetic::div_mod::lemma_mod_bound(item as int, size as int);
    }
}

/// No page is empty: the first item of every page that is counted is there.
pub proof fn law_no_page_is_empty(total: nat, size: nat, number: nat)
    requires
        size > 0,
        FIRST_PAGE <= number <= page_count(total, size),
    ensures
        (number - 1) * size < total,
{
    lemma_page_count(total, size);
    let full = (total / size) as int;
    let size = size as int;
    vstd::arithmetic::div_mod::lemma_fundamental_div_mod(total as int, size);
    vstd::arithmetic::div_mod::lemma_mod_bound(total as int, size);
    vstd::arithmetic::mul::lemma_mul_is_commutative(size, full);
    vstd::arithmetic::mul::lemma_mul_inequality(number - 1, full, size);
    if total as int % size == 0 {
        vstd::arithmetic::mul::lemma_mul_strict_inequality(number - 1, full, size);
    }
}

/// Different pages have different endpoints.
pub proof fn law_pages_have_different_endpoints(paged: PagedEndpoint, m: nat, n: nat)
    requires
        paged.page_endpoint(m) == paged.page_endpoint(n),
    ensures
        m == n,
{
    let prefix = paged.endpoint@ + paged.options@ + "&page[number]="@;
    let left = prefix + decimal::decimal(m);
    let right = prefix + decimal::decimal(n);
    assert(left.skip(prefix.len() as int) =~= decimal::decimal(m));
    assert(right.skip(prefix.len() as int) =~= decimal::decimal(n));
    decimal::law_decimal_is_injective(m, n);
}

/// The page number stands in the query string as one more option behind the others.
pub proof fn law_page_number_is_one_more_option(
    paged: PagedEndpoint,
    options: Seq<option::Pair>,
    number: nat,
)
    requires
        paged.options@ == option::query_string(option::page_options(options)),
    ensures
        paged.page_endpoint(number) == paged.endpoint@ + option::query_string(
            option::page_options(options).push((PAGE_NUMBER_KEY@, decimal::decimal(number))),
        ),
{
    let pairs = option::page_options(options);
    let pair = (PAGE_NUMBER_KEY@, decimal::decimal(number));
    option::law_page_size_is_the_one_asked_for(options);
    option::law_query_string_grows_at_the_end(pairs, pair);
    reveal_strlit("&page[number]=");
    reveal_strlit("&");
    reveal_strlit("page[number]");
    reveal_strlit("=");
    assert("&page[number]="@ =~= "&"@ + PAGE_NUMBER_KEY@ + "="@);
    assert(paged.page_endpoint(number) =~= paged.endpoint@ + option::query_string(
        pairs.push(pair),
    ));
}

/// No key occurs twice in the query string of a page, unless the options give a page number.
pub proof fn law_page_query_has_distinct_keys(options: Seq<option::Pair>, number: nat)
    requires
        option::given(options, PAGE_NUMBER_KEY@) is None,
    ensures
        option::distinct_keys(
            option::page_options(options).push((PAGE_NUMBER_KEY@, decimal::decimal(number))),
        ),
{
    let pairs = option::page_options(options);
    option::law_page_options_have_distinct_keys(options);
    assert forall|i: int| 0 <= i < pairs.len() implies (#[trigger] pairs[i]).0
        != PAGE_NUMBER_KEY@ by {
        option::law_page_options_hold_last_given(options, pairs[i].0, pairs[i].1);
        assert(pairs.contains((pairs[i].0, pairs[i].1)));
        reveal_strlit("page[size]");
        reveal_strlit("page[number]");
        assert(option::PAGE_SIZE_KEY@.len() != PAGE_NUMBER_KEY@.len());
    }
}

/// A header whose bytes are visible ASCII and denote a number says exactly that number. What is not
/// visible ASCII is no text, and other text is no number.
pub proof fn law_total_is_the_number_in_the_header(bytes: Seq<u8>)
    ensures
        ({
            let text = Seq::new(bytes.len(), |i: int| bytes[i] as char);
            if exists|i: int|
                0 <= i < bytes.len() && !(32 <= #[trigger] bytes[i] <= 126 || bytes[i] == 9) {
                total_of(bytes) == Err::<u32, TotalError>(
                    TotalError::NotText(headers::to_str_error(bytes)),
                )
            } else {
                match decimal::parsed_u32(text) {
                    Some(n) => total_of(bytes) == Ok::<u32, TotalError>(n),
                    None => total_of(bytes) == Err::<u32, TotalError>(
                        TotalError::NotNumber(decimal::parse_error(text)),
                    ),
                }
            }
        }),
{
    headers::law_visible_bytes_are_their_characters(bytes);
    let text = Seq::new(bytes.len(), |i: int| bytes[i] as char);
    assert(headers::ascii_text(bytes) =~= text);
}

/// A first page whose header says a number, written in decimal, is read as exactly that number.
pub proof fn law_written_total_is_read_back(response: HeaderMap<HeaderValue>, n: u32)
    requires
        headers::first_values(response).contains_key("x-total"@),
        headers::first_values(response)["x-total"@] == Seq::new(
            decimal::decimal(n as nat).len(),
            |i: int| decimal::decimal(n as nat)[i] as u8,
        ),
    ensures
        stated_total(response) == Ok::<u32, FirstPageError>(n),
{
    let digits = decimal::decimal(n as nat);
    let bytes = headers::first_values(response)["x-total"@];
    let text = Seq::new(bytes.len(), |i: int| bytes[i] as char);
    decimal::law_decimal_reads_back(n);
    decimal::lemma_decimal_denotes(n as nat);
    assert forall|i: int| 0 <= i < bytes.len() implies (32 <= #[trigger] bytes[i] <= 126
        || bytes[i] == 9) && bytes[i] as char == digits[i] by {
        assert('0' <= digits[i] <= '9');
    }
    assert(text =~= digits);
    law_total_is_the_number_in_the_header(bytes);
}

/// What the first page says is what its first header `x-total` says; without one it says nothing.
pub proof fn law_first_page_says_what_its_header_says(response: HeaderMap<HeaderValue>)
    ensures
        !headers::first_values(response).contains_key("x-total"@) ==> stated_total(response) == Err::<
            u32,
            FirstPageError,
        >(FirstPageError::Missing),
        headers::first_values(response).contains_key("x-total"@) ==> match total_of(
            headers::first_values(response)["x-total"@],
        ) {
            Ok(n) => stated_total(response) == Ok::<u32, FirstPageError>(n),
            Err(error) => stated_total(response) == Err::<u32, FirstPageError>(
                FirstPageError::Unreadable(error),
            ),
        },
{
}

/// The pages that are counted hold the items exactly: together they have room for all of them, and
/// with one page less they would not.
pub proof fn law_page_count_is_exact(total: nat, size: nat)
    requires
        size > 0,
    ensures
        total <= page_count(total, size) * size,
        total == 0 ==> page_count(total, size) == 0,
        total > 0 ==> (page_count(total, size) - 1) * size < total,
{
    lemma_page_count(total, size);
    let full = (total / size) as int;
    let size = size as int;
    vstd::arithmetic::div_mod::lemma_fundamental_div_mod(total as int, size);
    vstd::arithmetic::div_mod::lemma_mod_bound(total as int, size);
    vstd::arithmetic::mul::lemma_mul_is_commutative(size, full);
    assert((full + 1) * size == full * size + size) by (nonlinear_arith);
    assert((full - 1) * size == full * size - size) by (nonlinear_arith);
}

/// The endpoint of a page is the endpoint, its options and the page number, whole and in decimal.
pub proof fn law_page_endpoint_is_written_out(paged: PagedEndpoint, number: nat)
    ensures
        paged.page_endpoint(number) == paged.endpoint@ + paged.options@ + "&page[number]="@
            + decimal::decimal(number),
{
}

/// The other pages are those from the second to the last one, each once and in order.
pub proof fn law_other_pages_are_all_but_the_first(paged: PagedEndpoint, count: nat)
    ensures
        paged.other_page_endpoints(count).len() == (if count > 1 {
            count - 1
        } else {
            0
        }),
        forall|number: int|
            2 <= number <= count ==> #[trigger] paged.page_endpoint(number as nat)
                == paged.other_page_endpoints(count)[number - 2],
{
}

/// The first page comes first, and no page is lost, added or moved.
pub proof fn law_collected_pages_are_those_fetched<R>(count: nat, first: R, others: Seq<R>)
    ensures
        count == 0 ==> collected(count, first, others) == others,
        count > 0 ==> collected(count, first, others) == seq![first] + others,
{
}

} // verus!
