//! Layout settings (fixed layout).
//!
//! The screen is laid out once and for all:
//! - upper part: Preview and Program, one view each;
//! - lower part: the inputs, in a grid of eight views.

use crate::source::SourceId;
use vstd::prelude::*;

verus! {

/// Number of columns of the input grid.
pub const INPUT_COLS: usize = 4;

/// Number of rows of the input grid.
pub const INPUT_ROWS: usize = 2;

/// The layouts, each for a fixed purpose.
#[derive(Debug, Clone, Copy, PartialEq, Eq, Structural)]
pub enum LayoutType {
    /// One view.
    Single,
    /// Eight views, four to a row.
    Inputs4x2,
}

impl LayoutType {
    /// Number of columns of the grid.
    pub open spec fn cols(self) -> nat {
        match self {
            LayoutType::Single => 1,
            LayoutType::Inputs4x2 => INPUT_COLS as nat,
        }
    }

    /// Number of rows of the grid.
    pub open spec fn rows(self) -> nat {
        match self {
            LayoutType::Single => 1,
            LayoutType::Inputs4x2 => INPUT_ROWS as nat,
        }
    }

    /// Number of views.
    pub open spec fn views(self) -> nat {
        match self {
            LayoutType::Single => 1,
            LayoutType::Inputs4x2 => 8,
        }
    }

    /// The text shown for the layout.
    pub open spec fn label(self) -> Seq<char> {
        match self {
            LayoutType::Single => "Single"@,
            LayoutType::Inputs4x2 => "Inputs 4x2"@,
        }
    }

    /// The dimensions of the grid, as `(cols, rows)`.
    pub fn dimensions(&self) -> (d: (usize, usize))
        ensures
            d.0 == self.cols(),
            d.1 == self.rows(),
    {
        match self {
            LayoutType::Single => (1, 1),
            LayoutType::Inputs4x2 => (INPUT_COLS, INPUT_ROWS),
        }
    }

    /// The number of views that the layout needs.
    pub fn view_count(&self) -> (n: usize)
        ensures
            n == self.views(),
    {
        let (cols, rows) = self.dimensions();
        proof {
            law_grid_holds_all_views(*self);
        }
        cols * rows
    }

    /// The text shown for the layout.
    pub fn to_string(&self) -> (s: String)
        ensures
            s@ == self.label(),
    {
        match self {
            LayoutType::Single => "Single".to_owned(),
            LayoutType::Inputs4x2 => "Inputs 4x2".to_owned(),
        }
    }
}

/// The settings of one view.
#[derive(Debug, Clone)]
pub struct ViewDescriptor {
    /// The source assigned to the view.
    pub source_id: Option<SourceId>,
}

impl ViewDescriptor {
    /// Makes the settings of a view that shows `source_id`.
    pub fn new(source_id: Option<SourceId>) -> (v: Self)
        ensures
            v.source_id == source_id,
    {
        ViewDescriptor { source_id }
    }
}

/// The sources of the views once `source_id` has been assigned to the view at `index`.
pub open spec fn assigned(
    sources: Seq<Option<SourceId>>,
    index: int,
    source_id: Option<SourceId>,
) -> Seq<Option<SourceId>> {
    if 0 <= index < sources.len() {
        sources.update(index, source_id)
    } else {
        sources
    }
}

/// The settings of all views of a multi-view layout.
#[derive(Debug, Clone)]
pub struct LayoutConfig {
    views: Vec<ViewDescriptor>,
}

impl LayoutConfig {
    /// The source assigned to each view, in the order of the views.
    pub closed spec fn sources(&self) -> Seq<Option<SourceId>> {
        self.views@.map_values(|v: ViewDescriptor| v.source_id)
    }

    /// Makes the settings for a layout, with no source assigned to any view.
    pub fn new(layout_type: LayoutType) -> (c: Self)
        ensures
            c.sources() == Seq::new(layout_type.views(), |i: int| None::<SourceId>),
    {
        let view_count = layout_type.view_count();
        let mut views: Vec<ViewDescriptor> = Vec::new();
        for i in 0..view_count
            invariant
                views.len() == i,
                forall|j: int| 0 <= j < i ==> (#[trigger] views[j]).source_id is None,
        {
            views.push(ViewDescriptor::new(None));
        }
        let c = LayoutConfig { views };
        assert(c.sources() =~= Seq::new(view_count as nat, |i: int| None::<SourceId>));
        c
    }

    /// The number of views.
    pub fn view_count(&self) -> (n: usize)
        ensures
            n == self.sources().len(),
    {
        self.views.len()
    }

    /// The settings of the view at `index`, if there is one.
    pub fn view(&self, index: usize) -> (v: Option<&ViewDescriptor>)
        ensures
            v is Some <==> index < self.sources().len(),
            v matches Some(d) ==> d.source_id == self.sources()[index as int],
    {
        if index < self.views.len() {
            Some(&self.views[index])
        } else {
            None
        }
    }

    /// Assigns a source to the view at `view_index`; there is nothing to do where
    /// there is no such view.
    pub fn assign_source(&mut self, view_index: usize, source_id: Option<SourceId>)
        ensures
            final(self).sources() == assigned(old(self).sources(), view_index as int, source_id),
    {
        if view_index < self.views.len() {
            self.views[view_index] = ViewDescriptor::new(source_id);
            assert(self.sources() =~= old(self).sources().update(view_index as int, source_id));
        }
    }
}

impl Default for LayoutConfig {
    /// The settings of the input grid.
    fn default() -> (c: Self)
        ensures
            c.sources() == Seq::new(LayoutType::Inputs4x2.views(), |i: int| None::<SourceId>),
    {
        LayoutConfig::new(LayoutType::Inputs4x2)
    }
}

/// A view shows the source that was assigned to it last, and assigning a source to one
/// view changes no other, nor the number of views.
pub proof fn law_assignment_is_local(
    sources: Seq<Option<SourceId>>,
    index: int,
    source_id: Option<SourceId>,
    other: int,
)
    requires
        0 <= other < sources.len(),
    ensures
        assigned(sources, index, source_id).len() == sources.len(),
        assigned(sources, index, source_id)[other] == if other == index {
            source_id
        } else {
            sources[other]
        },
{
}

/// The grid has a place for every view of the layout, and no other.
pub proof fn law_grid_holds_all_views(layout: LayoutType)
    ensures
        layout.cols() * layout.rows() == layout.views(),
{
    let cols = layout.cols();
    let rows = layout.rows();
    assert(layout is Single ==> cols * rows == 1) by (nonlinear_arith)
        requires
            layout is Single ==> cols == 1 && rows == 1,
    ;
    assert(layout is Inputs4x2 ==> cols * rows == 8) by (nonlinear_arith)
        requires
            layout is Inputs4x2 ==> cols == 4 && rows == 2,
    ;
}

/// A layout is one view, named `Single`, or eight views in two rows of four, named
/// `Inputs 4x2`.
pub proof fn law_layouts(layout: LayoutType)
    ensures
        layout is Single ==> layout.cols() == 1 && layout.rows() == 1 && layout.views() == 1
            && layout.label() == "Single"@,
        layout is Inputs4x2 ==> layout.cols() == 4 && layout.rows() == 2 && layout.views() == 8
            && layout.label() == "Inputs 4x2"@,
{
}

} // verus!
