//! The buttons of a pagination bar: every page where they fit, otherwise a
//! bounded number of them around the current page.

use vstd::prelude::*;
use crate::hooks::pagination::Pagination;

verus! {

/// Where the current page lies among the pages, for a bar that has room for
/// fewer buttons than there are pages.
#[derive(Clone, Copy, PartialEq, Eq, Debug, Structural)]
pub enum PageRange {
    Lower,
    Mid,
    Upper,
}

/// One button of the bar.
#[derive(Clone, Copy, PartialEq, Eq, Debug, Structural)]
pub enum PageButton {
    /// Leads to the page of that number.
    Page(i32),
    /// Stands for the current page, and leads nowhere.
    Selected(i32),
    /// Stands for pages that are not shown, and leads nowhere.
    Ellipsis,
}

/// The range of page `i` among `num_pages` pages, with room for
/// `max_num_pages` buttons: lower before page `max_num_pages`, upper in the
/// last `max_num_pages` pages, mid between them. Where both hold, lower.
pub open spec fn page_range(i: int, num_pages: int, max_num_pages: int) -> PageRange {
    if i < max_num_pages {
        PageRange::Lower
    } else if i > num_pages - max_num_pages {
        PageRange::Upper
    } else {
        PageRange::Mid
    }
}

/// The button for the page of number `page`, where `current` is the current
/// page.
pub open spec fn numbered(page: int, current: int) -> PageButton {
    if page == current {
        PageButton::Selected(page as i32)
    } else {
        PageButton::Page(page as i32)
    }
}

/// The number of buttons of a bar with room for `max_pages` of them.
pub open spec fn room(max_pages: int) -> nat {
    if max_pages > 0 {
        max_pages as nat
    } else {
        0
    }
}

/// A button for every page, from 1 to `num_pages`.
pub open spec fn uncapped_plan(current: int, num_pages: int) -> Seq<PageButton> {
    Seq::new(room(num_pages), |k: int| numbered(k + 1, current))
}

/// The buttons in the lower range: the pages from 1 to `max_pages`, with an
/// ellipsis in the last place but one.
pub open spec fn lower_plan(current: int, max_pages: int) -> Seq<PageButton> {
    Seq::new(
        room(max_pages),
        |k: int|
            if k + 1 == max_pages - 1 {
                PageButton::Ellipsis
            } else {
                numbered(k + 1, current)
            },
    )
}

/// The buttons in the upper range, the lower range seen from the other end:
/// the last `max_pages` pages, with an ellipsis in the second place.
pub open spec fn upper_plan(current: int, num_pages: int, max_pages: int) -> Seq<PageButton> {
    Seq::new(
        room(max_pages),
        |k: int|
            if k + 1 == 2 {
                PageButton::Ellipsis
            } else {
                numbered(num_pages - max_pages + k + 1, current)
            },
    )
}

/// The first page of the window of `max_pages` pages around `current`. Where
/// `max_pages` is even, the page more stands after `current`.
pub open spec fn mid_first(current: int, max_pages: int) -> int {
    current - (max_pages - 1) / 2
}

/// The buttons in the mid range: `max_pages` pages in a row, the current page
/// in their middle.
pub open spec fn mid_plan(current: int, max_pages: int) -> Seq<PageButton> {
    Seq::new(room(max_pages), |k: int| numbered(mid_first(current, max_pages) + k, current))
}

/// The buttons of the bar for `p`, with room for `max_pages` buttons.
pub open spec fn button_plan(p: Pagination, max_pages: int) -> Seq<PageButton> {
    if p.number_pages <= max_pages {
        uncapped_plan(p.page as int, p.number_pages as int)
    } else {
        match page_range(p.page as int, p.number_pages as int, max_pages) {
            PageRange::Lower => lower_plan(p.page as int, max_pages),
            PageRange::Mid => mid_plan(p.page as int, max_pages),
            PageRange::Upper => upper_plan(p.page as int, p.number_pages as int, max_pages),
        }
    }
}

/// The button that stands for `button` when the `num_pages` pages are counted
/// from the other end.
pub open spec fn mirrored(button: PageButton, num_pages: int) -> PageButton {
    match button {
        PageButton::Page(n) => PageButton::Page((num_pages + 1 - n) as i32),
        PageButton::Selected(n) => PageButton::Selected((num_pages + 1 - n) as i32),
        PageButton::Ellipsis => PageButton::Ellipsis,
    }
}

/// The bar is bounded: it never has more buttons than it has room for. With
/// fewer pages than room it has a button for each page, otherwise it is full.
pub proof fn lemma_plan_len(p: Pagination, max_pages: int)
    ensures
        button_plan(p, max_pages).len() <= room(max_pages),
        p.number_pages <= max_pages ==> button_plan(p, max_pages).len() == room(
            p.number_pages as int,
        ),
        p.number_pages > max_pages ==> button_plan(p, max_pages).len() == room(max_pages),
{
}

/// Every button leads where it may: a numbered button names a page that
/// exists and is not the current one, so that jumping to it arrives there,
/// and a selected button names the current page.
pub proof fn lemma_plan_buttons(p: Pagination, max_pages: int, k: int)
    requires
        p.wf(),
        i32::MIN <= max_pages <= i32::MAX,
        0 <= k < button_plan(p, max_pages).len(),
    ensures
        button_plan(p, max_pages)[k] matches PageButton::Page(n) ==> 1 <= n <= p.number_pages && n
            != p.page && p.jumped_to(n as int).page == n,
        button_plan(p, max_pages)[k] matches PageButton::Selected(n) ==> n == p.page,
{
}

/// In the lower range no button names a page beyond the room of the bar, and
/// the ellipsis stands in the last place but one.
pub proof fn lemma_lower_plan(current: int, max_pages: int, k: int)
    requires
        i32::MIN <= max_pages <= i32::MAX,
        0 <= k < lower_plan(current, max_pages).len(),
    ensures
        lower_plan(current, max_pages)[k] matches PageButton::Page(n) ==> n == k + 1 && n
            <= max_pages,
        lower_plan(current, max_pages)[k] matches PageButton::Selected(n) ==> n == k + 1 && n
            <= max_pages,
        lower_plan(current, max_pages)[k] is Ellipsis <==> k == max_pages - 2,
{
}

/// Where every page fits, the bar lists the pages from 1 on, each once and
/// none left out, and has no ellipsis.
pub proof fn lemma_uncapped_plan(p: Pagination, max_pages: int, k: int)
    requires
        p.number_pages <= max_pages,
        0 <= k < button_plan(p, max_pages).len(),
    ensures
        button_plan(p, max_pages).len() == room(p.number_pages as int),
        button_plan(p, max_pages)[k] == numbered(k + 1, p.page as int),
        !(button_plan(p, max_pages)[k] is Ellipsis),
{
}

/// The upper range is the lower range seen from the other end: read
/// backwards, with the pages counted from the last, the buttons of the upper
/// range for the current page are those of the lower range for the page as
/// far from the first page as the current page is from the last.
pub proof fn lemma_upper_mirrors_lower(current: int, num_pages: int, max_pages: int, k: int)
    requires
        0 < max_pages < num_pages <= i32::MAX,
        0 <= k < max_pages,
    ensures
        upper_plan(current, num_pages, max_pages).len() == lower_plan(
            num_pages + 1 - current,
            max_pages,
        ).len(),
        upper_plan(current, num_pages, max_pages)[k] == mirrored(
            lower_plan(num_pages + 1 - current, max_pages)[max_pages - 1 - k],
            num_pages,
        ),
{
}

/// In the mid range the current page is shown, as the selected button in the
/// middle of the bar.
pub proof fn lemma_mid_plan(current: int, num_pages: int, max_pages: int)
    requires
        0 < max_pages <= i32::MAX,
        i32::MIN <= current <= i32::MAX,
    ensures
        mid_plan(current, max_pages).len() == max_pages,
        mid_plan(current, max_pages)[(max_pages - 1) / 2] == PageButton::Selected(current as i32),
{
}

/// The range of page `i` among `num_pages` pages, with room for
/// `max_num_pages` buttons.
pub fn get_page_range(i: i32, num_pages: i32, max_num_pages: i32) -> (range: PageRange)
    ensures
        range == page_range(i as int, num_pages as int, max_num_pages as int),
{
    if i < max_num_pages {
        PageRange::Lower
    } else if i as i64 > num_pages as i64 - max_num_pages as i64 {
        PageRange::Upper
    } else {
        PageRange::Mid
    }
}

/// The button for page `page`.
fn page_button(page: i32, current: i32) -> (button: PageButton)
    ensures
        button == numbered(page as int, current as int),
{
    if page == current {
        PageButton::Selected(page)
    } else {
        PageButton::Page(page)
    }
}

/// A button for every page.
pub fn pages_view_uncapped(pagination: &Pagination) -> (view: Vec<PageButton>)
    ensures
        view@ == uncapped_plan(pagination.page as int, pagination.number_pages as int),
{
    let num_pages: i32 = pagination.number_pages;
    let mut view: Vec<PageButton> = Vec::new();
    let mut i: i32 = 0;
    while i < num_pages
        invariant
            0 <= i,
            i <= room(num_pages as int),
            view.len() == i,
            forall|k: int|
                0 <= k < i ==> #[trigger] view[k] == numbered(k + 1, pagination.page as int),
        decreases num_pages - i,
    {
        i += 1;
        view.push(page_button(i, pagination.page));
    }
    assert(view@ =~= uncapped_plan(pagination.page as int, pagination.number_pages as int));
    view
}

/// The buttons in the lower range.
pub fn pages_in_lower_range_view(pagination: &Pagination, max_pages_to_show: i32) -> (view: Vec<
    PageButton,
>)
    ensures
        view@ == lower_plan(pagination.page as int, max_pages_to_show as int),
{
    let mut view: Vec<PageButton> = Vec::new();
    let mut i: i32 = 0;
    while i < max_pages_to_show
        invariant
            0 <= i,
            i <= room(max_pages_to_show as int),
            view.len() == i,
            forall|k: int|
                0 <= k < i ==> #[trigger] view[k] == lower_plan(
                    pagination.page as int,
                    max_pages_to_show as int,
                )[k],
        decreases max_pages_to_show - i,
    {
        i += 1;
        // the ellipsis stands in the last place but one
        if i == max_pages_to_show - 1 {
            view.push(PageButton::Ellipsis);
        } else {
            view.push(page_button(i, pagination.page));
        }
    }
    assert(view@ =~= lower_plan(pagination.page as int, max_pages_to_show as int));
    view
}

/// The buttons in the upper range.
pub fn pages_in_upper_range_view(pagination: &Pagination, max_pages_to_show: i32) -> (view: Vec<
    PageButton,
>)
    requires
        pagination.number_pages > max_pages_to_show,
    ensures
        view@ == upper_plan(
            pagination.page as int,
            pagination.number_pages as int,
            max_pages_to_show as int,
        ),
{
    let mut view: Vec<PageButton> = Vec::new();
    let mut i: i32 = 0;
    while i < max_pages_to_show
        invariant
            0 <= i,
            i <= room(max_pages_to_show as int),
            pagination.number_pages > max_pages_to_show,
            view.len() == i,
            forall|k: int|
                0 <= k < i ==> #[trigger] view[k] == upper_plan(
                    pagination.page as int,
                    pagination.number_pages as int,
                    max_pages_to_show as int,
                )[k],
        decreases max_pages_to_show - i,
    {
        i += 1;
        // the ellipsis stands in the second place
        if i == 2 {
            view.push(PageButton::Ellipsis);
        } else {
            let page: i32 = pagination.number_pages - max_pages_to_show + i;
            view.push(page_button(page, pagination.page));
        }
    }
    assert(view@ =~= upper_plan(
        pagination.page as int,
        pagination.number_pages as int,
        max_pages_to_show as int,
    ));
    view
}

/// The buttons in the mid range: as many pages around the current page as
/// fit in the limit.
pub fn pages_fit_in_limit_view(pagination: &Pagination, max_pages_to_show: i32) -> (view: Vec<
    PageButton,
>)
    requires
        page_range(
            pagination.page as int,
            pagination.number_pages as int,
            max_pages_to_show as int,
        ) == PageRange::Mid,
    ensures
        view@ == mid_plan(pagination.page as int, max_pages_to_show as int),
{
    let mut view: Vec<PageButton> = Vec::new();
    if max_pages_to_show <= 0 {
        assert(view@ =~= mid_plan(pagination.page as int, max_pages_to_show as int));
        return view;
    }
    let first: i32 = pagination.page - (max_pages_to_show - 1) / 2;
    let mut i: i32 = 0;
    while i < max_pages_to_show
        invariant
            0 <= i <= max_pages_to_show,
            first == mid_first(pagination.page as int, max_pages_to_show as int),
            max_pages_to_show <= pagination.page,
            pagination.page <= pagination.number_pages - max_pages_to_show,
            view.len() == i,
            forall|k: int|
                0 <= k < i ==> #[trigger] view[k] == numbered(first + k, pagination.page as int),
        decreases max_pages_to_show - i,
    {
        view.push(page_button(first + i, pagination.page));
        i += 1;
    }
    assert(view@ =~= mid_plan(pagination.page as int, max_pages_to_show as int));
    view
}

/// The buttons of the bar for `pagination`, with room for
/// `max_buttons_to_show` buttons: every page where they fit, otherwise the
/// buttons of the range in which the current page lies.
pub fn plan_buttons(pagination: &Pagination, max_buttons_to_show: i32) -> (view: Vec<PageButton>)
    ensures
        view@ == button_plan(*pagination, max_buttons_to_show as int),
{
    if pagination.number_pages <= max_buttons_to_show {
        pages_view_uncapped(pagination)
    } else {
        match get_page_range(pagination.page, pagination.number_pages, max_buttons_to_show) {
            PageRange::Lower => pages_in_lower_range_view(pagination, max_buttons_to_show),
            PageRange::Mid => pages_fit_in_limit_view(pagination, max_buttons_to_show),
            PageRange::Upper => pages_in_upper_range_view(pagination, max_buttons_to_show),
        }
    }
}

} // verus!
