//! The chart's scales: a band scale over the labels for the x-axis and a
//! padded linear scale over the counts for the y-axis, in plot pixels.
use vstd::prelude::*;
use crate::series::{SeriesPoint, PointView, points_view};

verus! {

/// How far the y-axis domain reaches beyond the smallest and largest count.
pub const VALUE_PADDING: u64 = 10;

/// Extra raster rows below the chart, for the rotated tick labels.
pub const RASTER_EXTRA_HEIGHT: u32 = 70;

/// The chart's size and margins, in pixels.
#[derive(Clone, Copy, Debug, PartialEq, Eq, Structural)]
pub struct ChartLayout {
    pub width: u32,
    pub height: u32,
    pub top: u32,
    pub right: u32,
    pub bottom: u32,
    pub left: u32,
}

/// Where the chart maps the series: the band scale's labels and pixel
/// range, the linear scale's domain and its pixel range (top row last).
pub struct ChartScales {
    pub labels: Vec<String>,
    pub x_range: (i64, i64),
    pub y_domain: (i128, i128),
    pub y_range: (i64, i64),
}

#[derive(Clone, Copy, Debug, PartialEq, Eq, Structural)]
pub enum ChartError {
    /// No point to chart: the scales have no domain.
    EmptySeries,
    /// The margins leave no room for the plot.
    LayoutTooSmall,
}

/// A 1920 x 1080 chart with room for a title above and rotated labels below.
pub fn default_layout() -> (r: ChartLayout)
    ensures
        r == (ChartLayout { width: 1920, height: 1080, top: 90, right: 40, bottom: 95, left: 60 }),
{
    ChartLayout { width: 1920, height: 1080, top: 90, right: 40, bottom: 95, left: 60 }
}

/// The margins leave a plot area of positive width and height.
pub open spec fn fits(layout: ChartLayout) -> bool {
    layout.left + layout.right < layout.width && layout.top + layout.bottom < layout.height
}

/// The size of the raster image made from a chart of this layout.
pub fn raster_size(layout: &ChartLayout) -> (r: (u32, u64))
    ensures
        r.0 == layout.width,
        r.1 == layout.height + RASTER_EXTRA_HEIGHT,
{
    (layout.width, layout.height as u64 + RASTER_EXTRA_HEIGHT as u64)
}

pub open spec fn min_value(s: Seq<PointView>) -> int
    recommends
        s.len() > 0,
    decreases s.len(),
{
    if s.len() <= 1 {
        s[0].2 as int
    } else {
        let m = min_value(s.drop_last());
        if s.last().2 < m {
            s.last().2 as int
        } else {
            m
        }
    }
}

pub open spec fn max_value(s: Seq<PointView>) -> int
    recommends
        s.len() > 0,
    decreases s.len(),
{
    if s.len() <= 1 {
        s[0].2 as int
    } else {
        let m = max_value(s.drop_last());
        if s.last().2 > m {
            s.last().2 as int
        } else {
            m
        }
    }
}

/// Computes the chart's scales for `series`: the labels in order over
/// `[0, plot width]`, and the counts from the smallest less `pad` to the
/// largest plus `pad` over `[plot height, 0]`.
pub fn compute_scales(series: &Vec<SeriesPoint>, layout: &ChartLayout, pad: u64) -> (r: Result<
    ChartScales,
    ChartError,
>)
    ensures
        series@.len() == 0 ==> r == Err::<ChartScales, ChartError>(ChartError::EmptySeries),
        series@.len() > 0 && !fits(*layout) ==> r == Err::<ChartScales, ChartError>(
            ChartError::LayoutTooSmall,
        ),
        series@.len() > 0 && fits(*layout) ==> r is Ok,
        r matches Ok(s) ==> {
            &&& s.labels@.len() == series@.len()
            &&& forall|i: int| 0 <= i < series@.len() ==> (#[trigger] s.labels@[i])@ == series@[i].label@
            &&& s.x_range.0 == 0
            &&& s.x_range.1 == layout.width - layout.left - layout.right
            &&& s.y_range.0 == layout.height - layout.top - layout.bottom
            &&& s.y_range.1 == 0
            &&& s.y_domain.0 == min_value(points_view(series@)) - pad
            &&& s.y_domain.1 == max_value(points_view(series@)) + pad
        },
{
    if series.len() == 0 {
        return Err(ChartError::EmptySeries);
    }
    if layout.left as u64 + layout.right as u64 >= layout.width as u64 || layout.top as u64
        + layout.bottom as u64 >= layout.height as u64 {
        return Err(ChartError::LayoutTooSmall);
    }
    let ghost pv = points_view(series@);
    let mut labels: Vec<String> = Vec::new();
    let mut lo: u64 = series[0].value;
    let mut hi: u64 = series[0].value;
    let mut i: usize = 0;
    while i < series.len()
        invariant
            0 <= i <= series@.len(),
            series@.len() > 0,
            pv == points_view(series@),
            labels@.len() == i,
            forall|k: int| 0 <= k < i ==> (#[trigger] labels@[k])@ == series@[k].label@,
            i == 0 ==> lo == pv[0].2 && hi == pv[0].2,
            i > 0 ==> lo == min_value(pv.subrange(0, i as int)) && hi == max_value(
                pv.subrange(0, i as int),
            ),
        decreases series@.len() - i,
    {
        assert(pv.subrange(0, i + 1).drop_last() =~= pv.subrange(0, i as int));
        assert(pv[i as int].2 == series@[i as int].value);
        let v = series[i].value;
        if v < lo {
            lo = v;
        }
        if v > hi {
            hi = v;
        }
        labels.push(series[i].label.clone());
        i = i + 1;
    }
    assert(pv.subrange(0, series@.len() as int) =~= pv);
    let plot_width = layout.width as i64 - layout.left as i64 - layout.right as i64;
    let plot_height = layout.height as i64 - layout.top as i64 - layout.bottom as i64;
    Ok(
        ChartScales {
            labels,
            x_range: (0, plot_width),
            y_domain: (lo as i128 - pad as i128, hi as i128 + pad as i128),
            y_range: (plot_height, 0),
        },
    )
}

} // verus!
