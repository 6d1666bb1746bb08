//! Text that the key administration pages show: cooldown durations, the
//! page numbers of a paginated list, and links between its pages.

use vstd::prelude::*;

verus! {

/// The decimal digit `d`.
pub open spec fn digit_char(d: nat) -> char {
    seq!['0', '1', '2', '3', '4', '5', '6', '7', '8', '9'][d as int]
}

/// The decimal form of `n`, without leading zeros.
pub open spec fn decimal(n: nat) -> Seq<char>
    decreases n,
{
    if n < 10 {
        seq![digit_char(n)]
    } else {
        decimal(n / 10) + seq![digit_char(n % 10)]
    }
}

/// The decimal form of `n`.
pub fn decimal_text(n: u64) -> (r: String)
    ensures
        r@ == decimal(n as nat),
    decreases n,
{
    let d = (n % 10) as usize;
    let digits = "0123456789";
    proof {
        reveal_strlit("0123456789");
        assert(digits@ == seq!['0', '1', '2', '3', '4', '5', '6', '7', '8', '9']);
    }
    let last = digits.substring_char(d, d + 1);
    assert(last@ == seq![digit_char((n % 10) as nat)]);
    if n < 10 {
        String::from_str(last)
    } else {
        let head = decimal_text(n / 10);
        head.concat(last)
    }
}

/// A span of `t` seconds in its two largest units: days and hours, hours
/// and minutes, or minutes alone, by the largest unit that is not zero.
pub open spec fn span_text(t: nat) -> Seq<char> {
    let days = t / 86400;
    let hours = (t % 86400) / 3600;
    let minutes = (t % 3600) / 60;
    if days > 0 {
        decimal(days) + "d"@ + decimal(hours) + "h"@
    } else if hours > 0 {
        decimal(hours) + "h"@ + decimal(minutes) + "m"@
    } else {
        decimal(minutes) + "m"@
    }
}

/// A total cooldown of `t` seconds as the pages show it: `-` for none.
pub open spec fn cooling_time_text(t: nat) -> Seq<char> {
    if t == 0 {
        "-"@
    } else {
        span_text(t)
    }
}

/// Formats a span of seconds in its two largest units.
pub fn format_span(t: u64) -> (r: String)
    ensures
        r@ == span_text(t as nat),
{
    let days = t / 86400;
    let hours = (t % 86400) / 3600;
    let minutes = (t % 3600) / 60;
    if days > 0 {
        let mut s = decimal_text(days);
        s.append("d");
        s.append(decimal_text(hours).as_str());
        s.append("h");
        s
    } else if hours > 0 {
        let mut s = decimal_text(hours);
        s.append("h");
        s.append(decimal_text(minutes).as_str());
        s.append("m");
        s
    } else {
        let mut s = decimal_text(minutes);
        s.append("m");
        s
    }
}

/// Formats a total cooldown in seconds.
pub fn format_cooling_time(total_seconds: u64) -> (r: String)
    ensures
        r@ == cooling_time_text(total_seconds as nat),
{
    if total_seconds == 0 {
        return String::from_str("-");
    }
    format_span(total_seconds)
}

/// Formats how long a key has existed at `now`, from its creation time.
pub fn format_used_time(created_at: u64, now: u64) -> (r: String)
    ensures
        r@ == span_text(now.saturating_sub(created_at) as nat),
{
    format_span(now.saturating_sub(created_at))
}

/// The pages from `first` to `last`, both included.
pub open spec fn page_run(first: int, last: int) -> Seq<Option<usize>> {
    Seq::new(if last >= first { (last - first + 1) as nat } else { 0 }, |i: int| Some((first + i) as usize))
}

/// The page buttons of a list of `total` pages seen from page `current`
/// (`None` is an ellipsis): every page when there are at most seven;
/// else the first page, the pages within two of the current one, and the
/// last page, with an ellipsis where pages are left out.
pub open spec fn page_numbers(current: int, total: int) -> Seq<Option<usize>> {
    if total <= 7 {
        page_run(1, total)
    } else {
        let start = if current - 2 > 2 { current - 2 } else { 2 };
        let end = if current + 2 < total - 1 { current + 2 } else { total - 1 };
        let gap_before: Seq<Option<usize>> = if current > 4 { seq![None] } else { seq![] };
        let gap_after: Seq<Option<usize>> = if current < total - 3 { seq![None] } else { seq![] };
        seq![Some(1usize)] + gap_before + page_run(start, end) + gap_after + seq![Some(total as usize)]
    }
}

/// Appends the pages from `first` to `last` to `pages`.
fn push_run(pages: &mut Vec<Option<usize>>, first: usize, last: usize)
    ensures
        final(pages)@ == old(pages)@ + page_run(first as int, last as int),
{
    let ghost start = old(pages)@;
    if first > last {
        assert(page_run(first as int, last as int) =~= Seq::<Option<usize>>::empty());
        assert(pages@ =~= start + page_run(first as int, last as int));
        return;
    }
    let mut i: usize = first;
    assert(pages@ =~= start + page_run(first as int, first as int - 1));
    loop
        invariant
            first <= i <= last,
            start == old(pages)@,
            pages@ == start + page_run(first as int, i as int - 1),
        decreases last - i,
    {
        pages.push(Some(i));
        assert(pages@ =~= start + page_run(first as int, i as int));
        if i == last {
            return;
        }
        i = i + 1;
    }
}

/// The page buttons of a list of `total_pages` pages seen from page
/// `current_page`.
pub fn generate_page_numbers(current_page: usize, total_pages: usize) -> (r: Vec<Option<usize>>)
    ensures
        r@ == page_numbers(current_page as int, total_pages as int),
{
    let mut pages: Vec<Option<usize>> = Vec::new();
    if total_pages <= 7 {
        push_run(&mut pages, 1, total_pages);
        assert(pages@ =~= page_numbers(current_page as int, total_pages as int));
        return pages;
    }
    pages.push(Some(1));
    if current_page > 4 {
        pages.push(None);
    }
    let low = current_page.saturating_sub(2);
    let start = if low > 2 { low } else { 2 };
    let high = current_page.saturating_add(2);
    let end = if high < total_pages - 1 { high } else { total_pages - 1 };
    push_run(&mut pages, start, end);
    if current_page < total_pages.saturating_sub(3) {
        pages.push(None);
    }
    pages.push(Some(total_pages));
    assert(pages@ =~= page_numbers(current_page as int, total_pages as int));
    pages
}

/// Parts joined with `&` between them.
pub open spec fn joined(parts: Seq<Seq<char>>) -> Seq<char>
    decreases parts.len(),
{
    if parts.len() == 0 {
        Seq::empty()
    } else if parts.len() == 1 {
        parts[0]
    } else {
        joined(parts.drop_last()) + "&"@ + parts.last()
    }
}

/// The query parameters of a list page link, in order: the status and the
/// search when given, the sort field and order when a field is given, and
/// the page when past the first.
pub open spec fn link_params(status: Seq<char>, q: Seq<char>, page: nat, sort_by: Seq<char>, sort_order: Seq<char>) -> Seq<Seq<char>> {
    let a: Seq<Seq<char>> = if status.len() > 0 { seq!["status="@ + status] } else { seq![] };
    let b: Seq<Seq<char>> = if q.len() > 0 { seq!["q="@ + q] } else { seq![] };
    let c: Seq<Seq<char>> = if sort_by.len() > 0 {
        seq!["sort_by="@ + sort_by, "sort_order="@ + sort_order]
    } else {
        seq![]
    };
    let d: Seq<Seq<char>> = if page > 1 { seq!["page="@ + decimal(page)] } else { seq![] };
    a + b + c + d
}

/// Adds one parameter to a query under construction.
fn add_param(out: &mut String, first: bool, parts: Ghost<Seq<Seq<char>>>, prefix: Ghost<Seq<char>>, name: &str, value: &str)
    requires
        old(out)@ == prefix@ + joined(parts@),
        first == (parts@.len() == 0),
    ensures
        final(out)@ == prefix@ + joined(parts@.push(name@ + value@)),
{
    let ghost p = parts@.push(name@ + value@);
    assert(p.drop_last() =~= parts@);
    if !first {
        out.append("&");
    } else {
        assert(joined(parts@) == Seq::<char>::empty());
    }
    out.append(name);
    out.append(value);
    assert(out@ =~= prefix@ + joined(p));
}

/// The link to page `page` of the key list of `provider`, keeping the
/// status, search and sort.
pub fn build_page_link(
    provider: &str,
    status: &str,
    q: &str,
    page: usize,
    _page_size: usize,
    sort_by: &str,
    sort_order: &str,
) -> (r: String)
    ensures
        r@ == "/keys/"@ + provider@ + "?"@ + joined(link_params(status@, q@, page as nat, sort_by@, sort_order@)),
{
    let mut out = String::from_str("/keys/");
    out.append(provider);
    out.append("?");
    let ghost prefix = out@;
    let ghost mut parts: Seq<Seq<char>> = seq![];
    let mut first = true;
    assert(out@ =~= prefix + joined(parts));
    if status.unicode_len() > 0 {
        add_param(&mut out, first, Ghost(parts), Ghost(prefix), "status=", status);
        proof { parts = parts.push("status="@ + status@); }
        first = false;
    }
    if q.unicode_len() > 0 {
        add_param(&mut out, first, Ghost(parts), Ghost(prefix), "q=", q);
        proof { parts = parts.push("q="@ + q@); }
        first = false;
    }
    if sort_by.unicode_len() > 0 {
        add_param(&mut out, first, Ghost(parts), Ghost(prefix), "sort_by=", sort_by);
        proof { parts = parts.push("sort_by="@ + sort_by@); }
        first = false;
        add_param(&mut out, first, Ghost(parts), Ghost(prefix), "sort_order=", sort_order);
        proof { parts = parts.push("sort_order="@ + sort_order@); }
        first = false;
    }
    if page > 1 {
        let n = decimal_text(page as u64);
        add_param(&mut out, first, Ghost(parts), Ghost(prefix), "page=", n.as_str());
        proof { parts = parts.push("page="@ + n@); }
    }
    assert(parts =~= link_params(status@, q@, page as nat, sort_by@, sort_order@));
    out
}

} // verus!
