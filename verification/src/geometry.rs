//! Lengths and places on the screens, and where the bar goes.
//!
//! A length is a whole number of units, 65536 to the point. Windows and screens lie on fractions of
//! a point that are whole numbers of units, so sums, differences and comparisons of their places
//! come out the same here as in floating point.

use vstd::prelude::*;

verus! {

/// Units in a point.
pub const POINT: i64 = 65536;

/// The largest length that is handled, in either direction.
pub const LIMIT: i64 = 0x0010_0000_0000_0000;

/// Whether a length is within what is handled.
pub open spec fn fits(length: i64) -> bool {
    -LIMIT <= length <= LIMIT
}

#[derive(Debug, Clone, Copy, PartialEq, Eq, Structural)]
pub struct Point {
    pub x: i64,
    pub y: i64,
}

#[derive(Debug, Clone, Copy, PartialEq, Eq, Structural)]
pub struct Size {
    pub width: i64,
    pub height: i64,
}

#[derive(Debug, Clone, Copy, PartialEq, Eq, Structural)]
pub struct Rect {
    pub origin: Point,
    pub size: Size,
}

impl Point {
    /// Whether both coordinates are within what is handled.
    pub open spec fn fits(self) -> bool {
        fits(self.x) && fits(self.y)
    }
}

impl Size {
    /// Whether both extents are within what is handled.
    pub open spec fn fits(self) -> bool {
        fits(self.width) && fits(self.height)
    }
}

impl Rect {
    /// Whether all four lengths are within what is handled.
    pub open spec fn fits(self) -> bool {
        self.origin.fits() && self.size.fits()
    }

    /// Whether the rectangle, its edges included, holds a point.
    pub open spec fn holds(self, p: Point) -> bool {
        &&& self.origin.x <= p.x <= self.origin.x + self.size.width
        &&& self.origin.y <= p.y <= self.origin.y + self.size.height
    }

    /// Whether the rectangle, its edges included, holds a point.
    pub fn contains(&self, p: Point) -> (yes: bool)
        requires
            self.fits(),
        ensures
            yes == self.holds(p),
    {
        p.x >= self.origin.x && p.x <= self.origin.x + self.size.width && p.y >= self.origin.y
            && p.y <= self.origin.y + self.size.height
    }
}

/// Gap between the top edge of a window and the bar above it.
pub const WINDOW_GAP: i64 = 2 * POINT;

/// Gap between top-level menu titles.
pub const ITEM_SPACING: i64 = 20 * POINT;

/// Left and right padding inside the bar.
pub const BAR_EDGE: i64 = 14 * POINT;

/// How much higher the bar is than the system menu bar.
pub const BAR_V_MARGIN: i64 = 6 * POINT;

/// How far left of a title its menu drops, so that the texts line up.
pub const MENU_LEFT_ADJUST: i64 = 13 * POINT;

/// How far below the bar a menu drops.
pub const MENU_DROP: i64 = 10 * POINT;

/// How far the highlight of a title reaches beyond it on either side.
pub const PILL_MARGIN: i64 = 10 * POINT;

/// How far the highlight of a title stays inside the bar.
pub const PILL_V_INSET: i64 = 2 * POINT;

/// How far below the system menu bar a window's top edge may be to count as at the top.
pub const TOP_SLACK: i64 = 6 * POINT;

/// By how much a window may fall short of the screen and still count as filling it.
pub const FILL_SLACK: i64 = 2 * POINT;

/// The top edge of a window, reported from the top of the primary screen downwards, as the desired
/// place of the bar in coordinates that go upwards from the bottom of that screen.
pub fn place(pos: Point, primary_height: i64) -> (top: Point)
    requires
        pos.fits(),
        fits(primary_height),
    ensures
        top.x == pos.x,
        top.y == primary_height - pos.y,
{
    Point { x: pos.x, y: primary_height - pos.y }
}

/// The lower left corner of the bar above a window whose top edge is at `top`.
pub fn bar_origin(top: Point) -> (origin: Point)
    requires
        -2 * LIMIT <= top.y <= 2 * LIMIT,
    ensures
        origin.x == top.x,
        origin.y == top.y + WINDOW_GAP,
{
    Point { x: top.x, y: top.y + WINDOW_GAP }
}

/// The extents of a screen: all of it, and the part that menu bar and Dock leave free.
#[derive(Debug, Clone, Copy, PartialEq, Eq, Structural)]
pub struct ScreenExtents {
    pub frame: Size,
    pub visible: Size,
}

/// Whether a window is up in the menu-bar row and fills the screen: it is as high as the screen,
/// or as high and wide as its visible part.
pub open spec fn covers_top(
    pos: Point,
    size: Size,
    menu_bar_height: i64,
    screen: ScreenExtents,
) -> bool {
    &&& pos.y <= menu_bar_height + TOP_SLACK
    &&& {
        ||| size.height >= screen.frame.height - FILL_SLACK
        ||| (size.height >= screen.visible.height - FILL_SLACK && size.width
            >= screen.visible.width - FILL_SLACK)
    }
}

/// Hide when the focused window is (near-)fullscreen or maximized and actually covers the top of
/// the screen. A window of that size that was dragged down leaves room for the bar.
pub fn should_hide(
    pos: Point,
    size: Size,
    menu_bar_height: i64,
    screen: Option<ScreenExtents>,
) -> (hide: bool)
    requires
        fits(menu_bar_height),
        screen matches Some(s) ==> s.frame.fits() && s.visible.fits(),
    ensures
        hide == (match screen {
            Some(s) => covers_top(pos, size, menu_bar_height, s),
            None => false,
        }),
{
    let s = match screen {
        Some(s) => s,
        None => return false,
    };
    let at_top = pos.y <= menu_bar_height + TOP_SLACK;
    let fullscreen = size.height >= s.frame.height - FILL_SLACK;
    let maximized = size.height >= s.visible.height - FILL_SLACK && size.width >= s.visible.width
        - FILL_SLACK;
    at_top && (fullscreen || maximized)
}

/// Where a screen lies from left to right, and the two areas beside its camera notch.
#[derive(Debug, Clone, Copy, PartialEq, Eq, Structural)]
pub struct ScreenTop {
    pub x: i64,
    pub width: i64,
    /// The height that the notch takes from the top; zero or less without a notch.
    pub safe_top: i64,
    /// The area left of the notch: its left edge and its width.
    pub left_area_x: i64,
    pub left_area_width: i64,
    /// The left edge of the area right of the notch.
    pub right_area_x: i64,
}

impl ScreenTop {
    /// Whether all lengths are within what is handled.
    pub open spec fn fits(self) -> bool {
        fits(self.x) && fits(self.width) && fits(self.left_area_x) && fits(self.left_area_width)
    }

    /// Whether the middle of the span that starts at `x` and is `width` wide lies on this screen.
    pub open spec fn has_middle(self, x: int, width: int) -> bool {
        2 * self.x <= 2 * x + width < 2 * (self.x + self.width)
    }

    /// The span of the notch from left to right, if there is one.
    pub open spec fn notch(self) -> Option<(int, int)> {
        if self.safe_top > 0 && self.right_area_x > self.left_area_x + self.left_area_width {
            Some((self.left_area_x + self.left_area_width, self.right_area_x as int))
        } else {
            None
        }
    }
}

/// The index of the first screen that has the middle of a span, or the number of screens.
pub open spec fn screen_of(screens: Seq<ScreenTop>, x: int, width: int) -> int
    decreases screens.len(),
{
    if screens.len() == 0 || screens[0].has_middle(x, width) {
        0
    } else {
        1 + screen_of(screens.drop_first(), x, width)
    }
}

/// The span of the notch of the screen on which the middle of a window lies.
pub open spec fn notch_at(screens: Seq<ScreenTop>, x: int, width: int) -> Option<(int, int)> {
    let i = screen_of(screens, x, width);
    if i < screens.len() {
        screens[i].notch()
    } else {
        None
    }
}

/// A screen with the middle of the span is the one found where no screen before it has it.
proof fn lemma_screen_of(screens: Seq<ScreenTop>, x: int, width: int, n: int)
    requires
        0 <= n <= screens.len(),
        forall|k: int| 0 <= k < n ==> !(#[trigger] screens[k]).has_middle(x, width),
        n < screens.len() ==> screens[n].has_middle(x, width),
    ensures
        screen_of(screens, x, width) == n,
    decreases screens.len(),
{
    if n > 0 {
        assert(!screens[0].has_middle(x, width));
        let rest = screens.drop_first();
        assert forall|k: int| 0 <= k < n - 1 implies !(#[trigger] rest[k]).has_middle(
            x,
            width,
        ) by {
            assert(rest[k] == screens[k + 1]);
        }
        if n < screens.len() {
            assert(rest[n - 1] == screens[n]);
        }
        lemma_screen_of(rest, x, width, n - 1);
    }
}

/// The span of the camera notch on the screen that holds the middle of a window `width` wide at
/// `x`; `None` if no screen does or that screen has no notch.
pub fn notch_x_span(screens: &[ScreenTop], x: i64, width: i64) -> (span: Option<(i64, i64)>)
    requires
        fits(x),
        fits(width),
        forall|k: int| 0 <= k < screens@.len() ==> (#[trigger] screens@[k]).fits(),
    ensures
        span is Some == notch_at(screens@, x as int, width as int) is Some,
        span matches Some((l, r)) ==> notch_at(screens@, x as int, width as int) == Some(
            (l as int, r as int),
        ),
{
    let mut i: usize = 0;
    while i < screens.len()
        invariant
            fits(x),
            fits(width),
            i <= screens.len(),
            forall|k: int| 0 <= k < screens@.len() ==> (#[trigger] screens@[k]).fits(),
            forall|k: int|
                0 <= k < i ==> !(#[trigger] screens@[k]).has_middle(x as int, width as int),
        decreases screens.len() - i,
    {
        let s = screens[i];
        assert(screens@[i as int].fits());
        let probe = 2 * x + width;
        if probe >= 2 * s.x && probe < 2 * (s.x + s.width) {
            proof {
                lemma_screen_of(screens@, x as int, width as int, i as int);
            }
            if s.safe_top <= 0 {
                return None;
            }
            let left = s.left_area_x + s.left_area_width;
            let right = s.right_area_x;
            return if right > left {
                Some((left, right))
            } else {
                None
            };
        }
        i += 1;
    }
    proof {
        lemma_screen_of(screens@, x as int, width as int, screens@.len() as int);
    }
    None
}

/// The real menus' extent from left to right, on the display that shows them.
#[derive(Debug, Clone, Copy, PartialEq, Eq, Structural)]
pub struct MenuSpan {
    pub left: i64,
    pub right: i64,
}

/// Whether the bar would sit where the system's own menus are: its window starts left of the point
/// that lies one and a half times their length behind their start.
pub open spec fn near_menus(x: int, span: Option<MenuSpan>) -> bool {
    match span {
        Some(s) => s.right >= s.left && 2 * x < 2 * s.left + 3 * (s.right - s.left),
        None => false,
    }
}

/// Whether a bar `width` wide at `x` would reach under the notch.
pub open spec fn under_notch(x: int, width: int, notch: Option<(int, int)>) -> bool {
    match notch {
        Some((left, right)) => x < right && x + width > left,
        None => false,
    }
}

/// Whether the bar of the given size above a window at `pos` would be in the way of the system:
/// up in the menu-bar strip, and near the menus or under the notch.
pub open spec fn obstructs(
    pos: Point,
    bar: Size,
    menu_bar_height: i64,
    span: Option<MenuSpan>,
    notch: Option<(int, int)>,
) -> bool {
    &&& pos.y < menu_bar_height + WINDOW_GAP + bar.height
    &&& near_menus(pos.x as int, span) || under_notch(pos.x as int, bar.width as int, notch)
}

/// A notch span as whole numbers.
pub open spec fn wide(notch: Option<(i64, i64)>) -> Option<(int, int)> {
    match notch {
        Some((l, r)) => Some((l as int, r as int)),
        None => None,
    }
}

/// Whether the bar of the given size above a window at `pos` would be in the way of the system.
pub fn in_the_way(
    pos: Point,
    bar: Size,
    menu_bar_height: i64,
    span: Option<MenuSpan>,
    notch: Option<(i64, i64)>,
) -> (yes: bool)
    requires
        pos.fits(),
        bar.fits(),
        fits(menu_bar_height),
        span matches Some(s) ==> -2 * LIMIT <= s.left <= 2 * LIMIT && -2 * LIMIT <= s.right <= 2
            * LIMIT,
    ensures
        yes == obstructs(pos, bar, menu_bar_height, span, wide(notch)),
{
    let in_strip = pos.y < menu_bar_height + WINDOW_GAP + bar.height;
    let over_menus = match span {
        Some(s) => s.right >= s.left && 2 * pos.x < 2 * s.left + 3 * (s.right - s.left),
        None => false,
    };
    let over_notch = match notch {
        Some((left, right)) => pos.x < right && pos.x + bar.width > left,
        None => false,
    };
    in_strip && (over_menus || over_notch)
}

// ---- fitting the titles into the bar ----------------------------------------------------------

/// How wide the first `n` titles are together.
pub open spec fn total_width(widths: Seq<i64>, n: nat) -> int
    decreases n,
{
    if n == 0 {
        0
    } else {
        total_width(widths, (n - 1) as nat) + widths[n - 1]
    }
}

/// How wide the first `n` titles are together with the gaps between them.
pub open spec fn row_width(widths: Seq<i64>, n: nat) -> int {
    total_width(widths, n) + if n == 0 {
        0
    } else {
        ITEM_SPACING * (n - 1)
    }
}

/// How wide a bar with all titles is.
pub open spec fn natural_width(widths: Seq<i64>) -> int {
    2 * BAR_EDGE + row_width(widths, widths.len())
}

/// How wide a bar with the first `n` titles and the overflow button is.
pub open spec fn crowded_width(widths: Seq<i64>, overflow_width: i64, n: nat) -> int {
    2 * BAR_EDGE + overflow_width + ITEM_SPACING + row_width(widths, n)
}

/// Whether a width is available; `None` is no limit.
pub open spec fn within(width: int, avail: Option<i64>) -> bool {
    match avail {
        Some(a) => width <= a,
        None => true,
    }
}

/// Which titles the bar shows.
#[derive(Debug, Clone, Copy, PartialEq, Eq, Structural)]
pub struct BarFit {
    /// How many titles are shown, from the first one on.
    pub visible: usize,
    /// Where the titles behind the overflow button start, if it is shown.
    pub overflow_from: Option<usize>,
}

/// Whether `fit` shows what it should: all titles where they fit, else, with the overflow button,
/// one title after the other until the next one does not fit.
pub open spec fn fits_bar(
    widths: Seq<i64>,
    overflow_width: i64,
    avail: Option<i64>,
    fit: BarFit,
) -> bool {
    if widths.len() == 0 || within(natural_width(widths), avail) {
        fit == (BarFit { visible: widths.len() as usize, overflow_from: None })
    } else {
        &&& fit.overflow_from == Some(fit.visible)
        &&& fit.visible <= widths.len()
        &&& forall|k: nat|
            1 <= k <= fit.visible ==> within(
                #[trigger] crowded_width(widths, overflow_width, k),
                avail,
            )
        &&& fit.visible < widths.len() ==> !within(
            crowded_width(widths, overflow_width, (fit.visible + 1) as nat),
            avail,
        )
    }
}

proof fn lemma_total_width_bounds(widths: Seq<i64>, n: nat)
    requires
        n <= widths.len(),
        forall|k: int| 0 <= k < widths.len() ==> fits(#[trigger] widths[k]),
    ensures
        -LIMIT * n <= total_width(widths, n) <= LIMIT * n,
    decreases n,
{
    if n > 0 {
        lemma_total_width_bounds(widths, (n - 1) as nat);
        assert(fits(widths[n - 1]));
        assert(LIMIT * n == LIMIT * (n - 1) + LIMIT) by (nonlinear_arith);
    }
}

fn fits_in(width: i128, avail: Option<i64>) -> (yes: bool)
    ensures
        yes == within(width as int, avail),
{
    match avail {
        Some(a) => width <= a as i128,
        None => true,
    }
}

/// Fits the titles, which are `widths` wide, into the available width. When they do not all fit,
/// shows as many as do plus the overflow button, which opens the rest.
pub fn fit_titles(widths: &[i64], overflow_width: i64, avail: Option<i64>) -> (fit: BarFit)
    requires
        forall|k: int| 0 <= k < widths@.len() ==> fits(#[trigger] widths@[k]),
        fits(overflow_width),
    ensures
        fits_bar(widths@, overflow_width, avail, fit),
{
    let n = widths.len();
    if n == 0 {
        return BarFit { visible: 0, overflow_from: None };
    }
    let mut natural: i128 = 2 * (BAR_EDGE as i128);
    let mut i: usize = 0;
    while i < n
        invariant
            n == widths@.len(),
            i <= n,
            forall|k: int| 0 <= k < widths@.len() ==> fits(#[trigger] widths@[k]),
            natural == 2 * BAR_EDGE + row_width(widths@, i as nat),
        decreases n - i,
    {
        proof {
            lemma_total_width_bounds(widths@, i as nat);
            assert(fits(widths@[i as int]));
            assert(-LIMIT * i >= -LIMIT * u64::MAX && LIMIT * i <= LIMIT * u64::MAX
                && ITEM_SPACING * i <= ITEM_SPACING * u64::MAX) by (nonlinear_arith)
                requires
                    0 <= i <= u64::MAX,
            ;
        }
        natural = natural + widths[i] as i128;
        if i > 0 {
            natural = natural + ITEM_SPACING as i128;
        }
        assert(i > 0 ==> ITEM_SPACING * i == ITEM_SPACING * (i - 1) + ITEM_SPACING)
            by (nonlinear_arith);
        i += 1;
    }
    if fits_in(natural, avail) {
        return BarFit { visible: n, overflow_from: None };
    }
    let mut used: i128 = 2 * (BAR_EDGE as i128) + overflow_width as i128 + ITEM_SPACING as i128;
    let mut shown: usize = 0;
    while shown < n
        invariant
            n == widths@.len(),
            n > 0,
            shown <= n,
            forall|k: int| 0 <= k < widths@.len() ==> fits(#[trigger] widths@[k]),
            fits(overflow_width),
            !within(natural_width(widths@), avail),
            used == crowded_width(widths@, overflow_width, shown as nat),
            forall|k: nat|
                1 <= k <= shown ==> within(
                    #[trigger] crowded_width(widths@, overflow_width, k),
                    avail,
                ),
        decreases n - shown,
    {
        proof {
            lemma_total_width_bounds(widths@, shown as nat);
            assert(fits(widths@[shown as int]));
            assert(-LIMIT * shown >= -LIMIT * u64::MAX && LIMIT * shown <= LIMIT * u64::MAX
                && ITEM_SPACING * shown <= ITEM_SPACING * u64::MAX) by (nonlinear_arith)
                requires
                    0 <= shown <= u64::MAX,
            ;
            assert(shown > 0 ==> ITEM_SPACING * shown == ITEM_SPACING * (shown - 1) + ITEM_SPACING)
                by (nonlinear_arith);
        }
        let gap: i128 = if shown > 0 {
            ITEM_SPACING as i128
        } else {
            0
        };
        let next = used + widths[shown] as i128 + gap;
        assert(next == crowded_width(widths@, overflow_width, (shown + 1) as nat));
        if !fits_in(next, avail) {
            return BarFit { visible: shown, overflow_from: Some(shown) };
        }
        used = next;
        shown += 1;
    }
    BarFit { visible: shown, overflow_from: Some(shown) }
}

/// Widths that are not negative add up.
proof fn lemma_row_width_grows(widths: Seq<i64>, m: nat, n: nat)
    requires
        m <= n <= widths.len(),
        forall|k: int| 0 <= k < widths.len() ==> 0 <= #[trigger] widths[k],
    ensures
        0 <= row_width(widths, m) <= row_width(widths, n),
    decreases n,
{
    if m < n {
        lemma_row_width_grows(widths, m, (n - 1) as nat);
        assert(0 <= widths[n - 1]);
        assert(n > 1 ==> ITEM_SPACING * (n - 1) == ITEM_SPACING * (n - 2) + ITEM_SPACING)
            by (nonlinear_arith);
    } else if n > 0 {
        lemma_row_width_grows(widths, (m - 1) as nat, (n - 1) as nat);
        assert(0 <= widths[n - 1]);
        assert(n > 1 ==> ITEM_SPACING * (n - 1) == ITEM_SPACING * (n - 2) + ITEM_SPACING)
            by (nonlinear_arith);
    }
}

/// What the bar shows is the most that fits: no larger number of titles fits beside the overflow
/// button.
pub proof fn lemma_most_titles_are_shown(
    widths: Seq<i64>,
    overflow_width: i64,
    avail: Option<i64>,
    fit: BarFit,
    n: nat,
)
    requires
        fits_bar(widths, overflow_width, avail, fit),
        forall|k: int| 0 <= k < widths.len() ==> 0 <= #[trigger] widths[k],
        overflow_width >= 0,
        fit.overflow_from is Some,
        fit.visible < n <= widths.len(),
    ensures
        !within(crowded_width(widths, overflow_width, n), avail),
{
    lemma_row_width_grows(widths, (fit.visible + 1) as nat, n);
}

/// Every title is reachable: it is shown, or it is behind the overflow button.
pub proof fn lemma_every_title_is_reachable(
    widths: Seq<i64>,
    overflow_width: i64,
    avail: Option<i64>,
    fit: BarFit,
    title: int,
)
    requires
        fits_bar(widths, overflow_width, avail, fit),
        widths.len() <= usize::MAX,
        0 <= title < widths.len(),
    ensures
        title < fit.visible || (fit.overflow_from is Some && fit.overflow_from->0 <= title),
{
}

/// Where the overflow button is shown, some title is behind it.
pub proof fn lemma_overflow_is_not_empty(
    widths: Seq<i64>,
    overflow_width: i64,
    avail: Option<i64>,
    fit: BarFit,
)
    requires
        fits_bar(widths, overflow_width, avail, fit),
        overflow_width >= 0,
        fit.overflow_from is Some,
    ensures
        fit.visible < widths.len(),
{
    if fit.visible == widths.len() {
        assert(within(crowded_width(widths, overflow_width, fit.visible as nat), avail));
    }
}

/// How high the bar is, for a system menu bar of the given height.
pub fn bar_height(menu_bar_height: i64) -> (height: i64)
    requires
        fits(menu_bar_height),
    ensures
        height == menu_bar_height + BAR_V_MARGIN,
{
    menu_bar_height + BAR_V_MARGIN
}

/// Where a menu drops: below the bar, under the title that is at `title_x`.
pub fn menu_location(title_x: i64, bar_y: i64) -> (at: Point)
    requires
        fits(title_x),
        fits(bar_y),
    ensures
        at.x == title_x - MENU_LEFT_ADJUST,
        at.y == bar_y - MENU_DROP,
{
    Point { x: title_x - MENU_LEFT_ADJUST, y: bar_y - MENU_DROP }
}

/// The highlight behind a title while its menu is open, inside a bar of the given height.
pub fn pill(title_x: i64, title_width: i64, bar_height: i64) -> (rect: Rect)
    requires
        fits(title_x),
        fits(title_width),
        fits(bar_height),
    ensures
        rect.origin.x == title_x - PILL_MARGIN,
        rect.origin.y == PILL_V_INSET,
        rect.size.width == title_width + 2 * PILL_MARGIN,
        rect.size.height == bar_height - 2 * PILL_V_INSET,
{
    Rect {
        origin: Point { x: title_x - PILL_MARGIN, y: PILL_V_INSET },
        size: Size {
            width: title_width + 2 * PILL_MARGIN,
            height: bar_height - 2 * PILL_V_INSET,
        },
    }
}

/// The index of the first rectangle that holds a point, or the number of rectangles.
pub open spec fn first_holding(rects: Seq<Rect>, p: Point) -> int
    decreases rects.len(),
{
    if rects.len() == 0 || rects[0].holds(p) {
        0
    } else {
        1 + first_holding(rects.drop_first(), p)
    }
}

proof fn lemma_first_holding(rects: Seq<Rect>, p: Point, n: int)
    requires
        0 <= n <= rects.len(),
        forall|k: int| 0 <= k < n ==> !(#[trigger] rects[k]).holds(p),
        n < rects.len() ==> rects[n].holds(p),
    ensures
        first_holding(rects, p) == n,
    decreases rects.len(),
{
    if n > 0 {
        assert(!rects[0].holds(p));
        let rest = rects.drop_first();
        assert forall|k: int| 0 <= k < n - 1 implies !(#[trigger] rest[k]).holds(p) by {
            assert(rest[k] == rects[k + 1]);
        }
        if n < rects.len() {
            assert(rest[n - 1] == rects[n]);
        }
        lemma_first_holding(rest, p, n - 1);
    }
}

/// The first title under the mouse, if there is one.
pub fn title_under(mouse: Point, titles: &[Rect]) -> (hit: Option<usize>)
    requires
        forall|k: int| 0 <= k < titles@.len() ==> (#[trigger] titles@[k]).fits(),
    ensures
        hit == (if first_holding(titles@, mouse) < titles@.len() {
            Some(first_holding(titles@, mouse) as usize)
        } else {
            None
        }),
{
    let mut i: usize = 0;
    while i < titles.len()
        invariant
            i <= titles.len(),
            forall|k: int| 0 <= k < titles@.len() ==> (#[trigger] titles@[k]).fits(),
            forall|k: int| 0 <= k < i ==> !(#[trigger] titles@[k]).holds(mouse),
        decreases titles.len() - i,
    {
        assert(titles@[i as int].fits());
        if titles[i].contains(mouse) {
            proof {
                lemma_first_holding(titles@, mouse, i as int);
            }
            return Some(i);
        }
        i += 1;
    }
    proof {
        lemma_first_holding(titles@, mouse, titles@.len() as int);
    }
    None
}

// ---- what the places can be relied upon for ---------------------------------------------------

/// Only a window that is at the top can cover it, and one that does still does when it is larger or
/// further up.
pub proof fn lemma_larger_windows_cover_too(
    pos: Point,
    size: Size,
    menu_bar_height: i64,
    screen: ScreenExtents,
    higher: Point,
    larger: Size,
)
    requires
        higher.y <= pos.y,
        larger.width >= size.width,
        larger.height >= size.height,
    ensures
        covers_top(pos, size, menu_bar_height, screen) ==> covers_top(
            higher,
            larger,
            menu_bar_height,
            screen,
        ),
        pos.y > menu_bar_height + 6 * POINT ==> !covers_top(pos, size, menu_bar_height, screen),
        pos.y <= menu_bar_height && size.height >= screen.frame.height ==> covers_top(
            pos,
            size,
            menu_bar_height,
            screen,
        ),
        pos.y <= menu_bar_height && size.height >= screen.visible.height && size.width
            >= screen.visible.width ==> covers_top(pos, size, menu_bar_height, screen),
        size.height < screen.frame.height - 2 * POINT && (size.height < screen.visible.height - 2
            * POINT || size.width < screen.visible.width - 2 * POINT) ==> !covers_top(
            pos,
            size,
            menu_bar_height,
            screen,
        ),
{
}

/// The notch that matters is that of the first screen on which the middle of the window lies: it
/// reaches from the end of the area left of it to the start of the area right of it.
pub proof fn lemma_notch_is_that_of_its_screen(screens: Seq<ScreenTop>, x: int, width: int) -> (at:
    int)
    ensures
        0 <= at <= screens.len(),
        forall|k: int|
            0 <= k < at ==> 2 * x + width < 2 * (#[trigger] screens[k]).x || 2 * x + width >= 2 * (
            screens[k].x + screens[k].width),
        at < screens.len() ==> 2 * screens[at].x <= 2 * x + width && 2 * x + width < 2 * (
        screens[at].x + screens[at].width),
        at == screens.len() ==> notch_at(screens, x, width) is None,
        at < screens.len() ==> {
            let screen = screens[at];
            let left = screen.left_area_x + screen.left_area_width;
            &&& notch_at(screens, x, width) is Some <==> screen.safe_top > 0 && left
                < screen.right_area_x
            &&& notch_at(screens, x, width) matches Some((l, r)) ==> l == left && r
                == screen.right_area_x
        },
    decreases screens.len(),
{
    if screens.len() == 0 || screens[0].has_middle(x, width) {
        0
    } else {
        let rest = screens.drop_first();
        let more = lemma_notch_is_that_of_its_screen(rest, x, width);
        assert forall|k: int| 0 <= k < more + 1 implies 2 * x + width < 2 * (
        #[trigger] screens[k]).x || 2 * x + width >= 2 * (screens[k].x + screens[k].width) by {
            if k > 0 {
                assert(rest[k - 1] == screens[k]);
            }
        }
        if more < rest.len() {
            assert(rest[more] == screens[more + 1]);
        }
        assert forall|k: int| 0 <= k < more + 1 implies !(#[trigger] screens[k]).has_middle(
            x,
            width,
        ) by {}
        lemma_screen_of(screens, x, width, more + 1);
        more + 1
    }
}

/// A bar is under the notch unless it ends before the notch or starts behind it.
pub proof fn lemma_bar_beside_the_notch(x: int, width: int, left: int, right: int)
    ensures
        under_notch(x, width, Some((left, right))) <==> !(x + width <= left || right <= x),
        !under_notch(x, width, None),
{
}

/// A bar is near the real menus just where its window starts less than one and a half times their
/// length behind their start.
pub proof fn lemma_bar_near_the_menus(x: int, span: MenuSpan)
    requires
        span.left <= span.right,
    ensures
        near_menus(x, Some(span)) <==> 2 * (x - span.left) < 3 * (span.right - span.left),
        !near_menus(x, None),
        x < span.left ==> near_menus(x, Some(span)),
        span.left < span.right && x < span.right ==> near_menus(x, Some(span)),
{
}

/// The bar keeps out of the way only where it would be in the menu-bar strip: one whose lower edge is
/// below the system menu bar is never kept away.
pub proof fn lemma_bar_below_the_strip_is_free(
    pos: Point,
    bar: Size,
    menu_bar_height: i64,
    span: Option<MenuSpan>,
    notch: Option<(int, int)>,
)
    ensures
        pos.y - 2 * POINT - bar.height >= menu_bar_height ==> !obstructs(
            pos,
            bar,
            menu_bar_height,
            span,
            notch,
        ),
        pos.y - 2 * POINT - bar.height < menu_bar_height ==> obstructs(
            pos,
            bar,
            menu_bar_height,
            span,
            notch,
        ) == (near_menus(pos.x as int, span) || under_notch(
            pos.x as int,
            bar.width as int,
            notch,
        )),
{
}

/// A row of titles grows by each title and the gap of twenty points before it.
pub proof fn lemma_row_grows_title_by_title(widths: Seq<i64>, n: nat)
    requires
        n < widths.len(),
    ensures
        row_width(widths, 0) == 0,
        row_width(widths, (n + 1) as nat) == row_width(widths, n) + widths[n as int] + (if n == 0 {
            0
        } else {
            20 * POINT
        }),
        natural_width(widths) == row_width(widths, widths.len()) + 28 * POINT,
{
    assert(n > 0 ==> ITEM_SPACING * n == ITEM_SPACING * (n - 1) + ITEM_SPACING) by (nonlinear_arith);
}

/// What the bar shows fits: the titles that are shown, with the gaps between them and fourteen points
/// at either end, and the overflow button with its gap where it is shown, are no wider than what is
/// available.
pub proof fn lemma_shown_titles_fit(
    widths: Seq<i64>,
    overflow_width: i64,
    avail: i64,
    fit: BarFit,
)
    requires
        fits_bar(widths, overflow_width, Some(avail), fit),
        widths.len() <= usize::MAX,
        fit.visible > 0,
    ensures
        fit.visible <= widths.len(),
        28 * POINT + row_width(widths, fit.visible as nat) + (if fit.overflow_from is Some {
            overflow_width + 20 * POINT
        } else {
            0
        }) <= avail,
        fit.overflow_from is None <==> fit.visible == widths.len() && 28 * POINT + row_width(
            widths,
            widths.len(),
        ) <= avail,
{
    if fit.overflow_from is Some {
        assert(within(crowded_width(widths, overflow_width, fit.visible as nat), Some(avail)));
    }
}

/// Titles are left out only where they have to be: all of them are shown where they fit or there is
/// no limit, and else one more than is shown would not fit beside the overflow button.
pub proof fn lemma_no_title_is_left_out_needlessly(
    widths: Seq<i64>,
    overflow_width: i64,
    avail: Option<i64>,
    fit: BarFit,
)
    requires
        fits_bar(widths, overflow_width, avail, fit),
        widths.len() <= usize::MAX,
    ensures
        avail is None || 28 * POINT + row_width(widths, widths.len()) <= avail->0 ==> fit.visible
            == widths.len() && fit.overflow_from is None,
        fit.visible < widths.len() ==> fit.overflow_from == Some(fit.visible) && 48 * POINT
            + overflow_width + row_width(widths, (fit.visible + 1) as nat) > avail->0,
{
}

/// A rectangle holds its corners and what lies between them, and nothing beyond its edges.
pub proof fn lemma_rectangle_holds_what_is_inside(rect: Rect, p: Point)
    ensures
        p.x < rect.origin.x || p.y < rect.origin.y || p.x > rect.origin.x + rect.size.width || p.y
            > rect.origin.y + rect.size.height <==> !rect.holds(p),
{
}

/// The title that is hit is the first one under the mouse, and none is where the mouse is over none.
pub proof fn lemma_first_rectangle_is_hit(rects: Seq<Rect>, p: Point)
    ensures
        0 <= first_holding(rects, p) <= rects.len(),
        first_holding(rects, p) < rects.len() ==> rects[first_holding(rects, p)].holds(p),
        forall|k: int| 0 <= k < first_holding(rects, p) ==> !(#[trigger] rects[k]).holds(p),
    decreases rects.len(),
{
    if rects.len() > 0 && !rects[0].holds(p) {
        let rest = rects.drop_first();
        lemma_first_rectangle_is_hit(rest, p);
        assert forall|k: int| 0 <= k < 1 + first_holding(rest, p) implies !(
        #[trigger] rects[k]).holds(p) by {
            if k > 0 {
                assert(rest[k - 1] == rects[k]);
            }
        }
    }
}

} // verus!
