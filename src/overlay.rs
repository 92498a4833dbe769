//! The interaction layer of the editor: viewport, registries reported by
//! the host scene, selection, link creation and link hit-testing, driven by
//! pointer and key events.
use crate::geometry::{
    abs, compute_pin_screen_position, create_bezier_from_endpoints, curve_dist_sq, distance_to_bezier_sq,
    div0, div_toward_zero, lemma_div0_bound, link_curve, pin_position, pos_within, shift_by_zoomed,
    shifted, sq, within, CubicBezier, NodeRect, Point, Pos, BASE_PIN_SIZE, CURVE_SEGMENTS, END_LIMIT,
    point_units, to_units, ZOOM_LIMIT, ZOOM_ONE, UNITS_PER_PX,
};
use crate::pins::{compatible, is_output, node_id_of, node_of, normalize_link, normalized, pins_compatible};
use crate::registry::{lemma_map_of_entries, sorted_ids, IdMap};
use vstd::prelude::*;

verus! {

/// Bound on the pan offset, in units (2^40 pixels); a pan beyond it is held
/// at the bound.
pub const PAN_LIMIT: i64 = 0x8_0000_0000_0000;

/// Sentinel for "no link" in link hit-testing and hover state.
pub const NO_LINK: i32 = -1;

/// Sentinel for "no pin" in pin hit-testing.
pub const NO_PIN: i32 = 0;

/// What a pointer event handler did with the event.
#[derive(Clone, Copy, Debug, PartialEq, Eq, Structural)]
pub enum InputEventResult {
    EventAccepted,
    EventIgnored,
    /// Accepted, and later pointer events go to the overlay.
    GrabMouse,
}

/// Whether the overlay takes an event before the elements below it.
#[derive(Clone, Copy, Debug, PartialEq, Eq, Structural)]
pub enum InputEventFilterResult {
    ForwardEvent,
    Intercept,
}

#[derive(Clone, Copy, Debug, PartialEq, Eq, Structural)]
pub enum KeyEventResult {
    EventAccepted,
    EventIgnored,
}

#[derive(Clone, Copy, Debug, PartialEq, Eq, Structural)]
pub enum PointerButton {
    Left,
    Middle,
    Right,
    Other,
}

/// A pointer event at a screen position.
#[derive(Clone, Copy, Debug, PartialEq, Eq, Structural)]
pub enum MouseEvent {
    Pressed { position: Point, button: PointerButton },
    Released { position: Point, button: PointerButton },
    Moved { position: Point },
    Wheel { position: Point, delta_y: i32 },
    Exit,
}

/// A pressed key.
#[derive(Clone, Copy, Debug, PartialEq, Eq, Structural)]
pub enum Key {
    Escape,
    Delete,
    Backspace,
    Character(char),
    Other,
}

/// A link between two pins, with its colour as ARGB.
#[derive(Clone, Copy, Debug, PartialEq, Eq, Structural)]
pub struct LinkRecord {
    pub start_pin_id: i32,
    pub end_pin_id: i32,
    pub color: u32,
}

/// The interaction in progress; at most one at a time.
#[derive(Clone, Copy, Debug, PartialEq, Eq, Structural)]
pub enum Mode {
    Idle,
    /// Middle-button drag: the cursor and pan when it began.
    Panning { origin: Point, origin_pan_x: i64, origin_pan_y: i64 },
    /// Ctrl-drag selection box between its origin and the cursor.
    BoxSelecting { origin: Point, current: Point },
    /// Link drag from `start_pin`, drawn from `origin` to `current`.
    CreatingLink { start_pin: i32, origin: Point, current: Point },
    /// Selected nodes being moved by the host, by an offset at zoom one.
    Dragging { offset_x: i32, offset_y: i32 },
}

/// Notifications to the host, queued in the order they happen.
#[derive(Clone, Copy, Debug, PartialEq, Eq, Structural)]
pub enum Signal {
    ViewportChanged,
    SelectionChanged,
    LinkSelectionChanged,
    LinkCreated { start_pin: i32, end_pin: i32 },
    LinkDropped,
    LinkCancelled,
    LinkPositionsChanged,
    LinkHovered { link_id: i32 },
    DeleteSelected,
    AddNodeRequested,
    ContextMenuRequested { x: i32, y: i32 },
}

/// Rendered geometry of one link.
#[derive(Clone, Copy, Debug, PartialEq, Eq, Structural)]
pub struct LinkGeometry {
    pub link_id: i32,
    pub start: Pos,
    pub end: Pos,
    pub color: u32,
    pub path: CubicBezier,
}

/// Reports gathered by the host since the last processing pass.
pub struct PendingReports {
    pub pin: Option<(i32, Point)>,
    pub pins: Vec<(i32, Point)>,
    pub node_rect: Option<(i32, NodeRect)>,
    pub node_rects: Vec<(i32, NodeRect)>,
    pub link: Option<(i32, LinkRecord)>,
    pub links: Vec<(i32, LinkRecord)>,
    pub deleted_links: Vec<i32>,
    /// A node click: the node and whether shift was held.
    pub clicked_node: Option<(i32, bool)>,
}

/// The overlay: owns the viewport, the registries, the selection and the
/// interaction mode.
pub struct NodeEditorOverlay {
    pub pan_x: i64,
    pub pan_y: i64,
    pub zoom: i64,
    pub min_zoom: i64,
    pub max_zoom: i64,
    /// Pin hit radius; zero or less selects a radius from the pin size.
    pub pin_hit_radius: i32,
    /// Largest distance at which a link counts as under the cursor.
    pub link_hover_distance: i32,
    pub mode: Mode,
    pub hovered_link_id: i32,
    pub pin_positions: IdMap<Point>,
    pub node_rects: IdMap<NodeRect>,
    pub links: IdMap<LinkRecord>,
    pub selected_nodes: IdMap<()>,
    pub selected_links: IdMap<()>,
    /// Geometry of the links whose two nodes are known, in link id order.
    pub link_geometry: Vec<LinkGeometry>,
    /// Signals not yet taken by the host.
    pub events: Vec<Signal>,
}

pub open spec fn clamp(v: int, lo: int, hi: int) -> int {
    if v < lo {
        lo
    } else if v > hi {
        hi
    } else {
        v
    }
}

/// A pan value held within the pan bound.
fn clamp_pan(v: i128) -> (r: i64)
    ensures
        r == clamp(v as int, -PAN_LIMIT as int, PAN_LIMIT as int),
{
    if v < -(PAN_LIMIT as i128) {
        -PAN_LIMIT
    } else if v > PAN_LIMIT as i128 {
        PAN_LIMIT
    } else {
        v as i64
    }
}

fn clamp_i64(v: i64, lo: i64, hi: i64) -> (r: i64)
    requires
        lo <= hi,
    ensures
        r == clamp(v as int, lo as int, hi as int),
{
    if v < lo {
        lo
    } else if v > hi {
        hi
    } else {
        v
    }
}

/// A squared distance of `d2` square pixels is within the default pin hit
/// radius, 0.66 of the pin diameter at the zoom: `d2 <= (12 * 0.66 * zoom /
/// 1000)^2`, compared exactly.
pub open spec fn within_default_pin_radius(d2: int, zoom: int) -> bool {
    d2 * 10_000_000_000 <= sq((BASE_PIN_SIZE * 66) as int * zoom)
}

/// The registry after applying reported entries in order, the last report
/// of an id winning.
pub open spec fn apply_all<V>(m: Map<i32, V>, s: Seq<(i32, V)>) -> Map<i32, V>
    decreases s.len(),
{
    if s.len() == 0 {
        m
    } else {
        apply_all(m, s.drop_last()).insert(s.last().0, s.last().1)
    }
}

/// The registry after removing the listed ids.
pub open spec fn remove_all<V>(m: Map<i32, V>, s: Seq<i32>) -> Map<i32, V>
    decreases s.len(),
{
    if s.len() == 0 {
        m
    } else {
        remove_all(m, s.drop_last()).remove(s.last())
    }
}

/// Zoom after one wheel step: up by a tenth for a positive delta, else down
/// by a tenth, held within `[min_zoom, max_zoom]`.
pub open spec fn wheel_zoom(zoom: int, delta_y: int, min_zoom: int, max_zoom: int) -> int {
    let factor = if delta_y > 0 {
        1100int
    } else {
        900int
    };
    clamp(zoom * factor / 1000, min_zoom, max_zoom)
}

/// Pan, in units, keeping the graph point under the cursor (at `cursor`
/// pixels) in place when the zoom goes from `old_zoom` to `new_zoom`:
/// `cursor - (cursor - pan) / old_zoom * new_zoom`, rounded toward zero to a
/// unit and held within the pan bound.
pub open spec fn zoom_pan(cursor: int, pan: int, old_zoom: int, new_zoom: int) -> int {
    let c = cursor * UNITS_PER_PX;
    clamp(c - div0((c - pan) * new_zoom, old_zoom), -PAN_LIMIT as int, PAN_LIMIT as int)
}

/// After zooming around the cursor, the graph point that was under it is
/// drawn less than one unit, so less than 1e-3 pixel, from it (unless the
/// pan met its bound). The error in units is the first difference divided by
/// `old_zoom`, in pixels that divided by `UNITS_PER_PX`.
pub proof fn lemma_zoom_keeps_cursor_point(cursor: int, pan: int, old_zoom: int, new_zoom: int)
    requires
        1 <= old_zoom <= ZOOM_LIMIT,
        1 <= new_zoom <= ZOOM_LIMIT,
        within(
            cursor * UNITS_PER_PX - div0((cursor * UNITS_PER_PX - pan) * new_zoom, old_zoom),
            PAN_LIMIT as int,
        ),
    ensures
        ({
            let c = cursor * UNITS_PER_PX;
            let err = (c - zoom_pan(cursor, pan, old_zoom, new_zoom)) * old_zoom - (c - pan)
                * new_zoom;
            &&& abs(err) < old_zoom
            &&& abs(err) * 1000 < old_zoom * UNITS_PER_PX
        }),
{
    let c = cursor * UNITS_PER_PX;
    let a = (c - pan) * new_zoom;
    let q = div0(a, old_zoom);
    assert(c - zoom_pan(cursor, pan, old_zoom, new_zoom) == q);
    if a >= 0 {
        assert(0 <= a - (a / old_zoom) * old_zoom < old_zoom) by (nonlinear_arith)
            requires
                old_zoom >= 1,
        ;
    } else {
        assert(0 <= (-a) - ((-a) / old_zoom) * old_zoom < old_zoom) by (nonlinear_arith)
            requires
                old_zoom >= 1,
        ;
        assert(q * old_zoom == -(((-a) / old_zoom) * old_zoom)) by (nonlinear_arith)
            requires
                q == -((-a) / old_zoom),
        ;
    }
}

/// Zooming around the cursor at `cursor` pixels, from `pan` at `old_zoom`
/// to `new_zoom`, keeps the cursor's graph point within 1e-3 pixel of the
/// cursor, whenever the new pan is within its bound.
pub open spec fn anchor_kept(cursor: int, pan: int, old_zoom: int, new_zoom: int) -> bool {
    let c = cursor * UNITS_PER_PX;
    within(c - div0((c - pan) * new_zoom, old_zoom), PAN_LIMIT as int) ==> abs(
        (c - zoom_pan(cursor, pan, old_zoom, new_zoom)) * old_zoom - (c - pan) * new_zoom,
    ) * 1000 < old_zoom * UNITS_PER_PX
}

/// The registry with an optional single report applied.
pub open spec fn with_report<V>(m: Map<i32, V>, report: Option<(i32, V)>) -> Map<i32, V> {
    match report {
        Some(e) => m.insert(e.0, e.1),
        None => m,
    }
}

/// A processing pass with these reports changes what link geometry
/// depends on.
pub open spec fn needs_regeneration(reports: &PendingReports) -> bool {
    ||| reports.node_rect is Some
    ||| reports.node_rects@.len() > 0
    ||| reports.link is Some
    ||| reports.links@.len() > 0
    ||| reports.deleted_links@.len() > 0
}

/// Signals of a node click in a processing pass, given the link selection
/// before the click.
pub open spec fn click_signals(links: Map<i32, ()>, clicked: Option<(i32, bool)>) -> Seq<Signal> {
    match clicked {
        Some((_, shift)) => if !shift && !links.is_empty() {
            seq![Signal::LinkSelectionChanged, Signal::SelectionChanged]
        } else {
            seq![Signal::SelectionChanged]
        },
        None => Seq::empty(),
    }
}

/// Signals of the geometry update at the end of a processing pass.
pub open spec fn regen_signals(reports: &PendingReports) -> Seq<Signal> {
    if needs_regeneration(reports) {
        seq![Signal::LinkPositionsChanged]
    } else {
        Seq::empty()
    }
}

/// A selection set with `id` added if absent, removed if present.
pub open spec fn toggled(m: Map<i32, ()>, id: i32) -> Map<i32, ()> {
    if m.contains_key(id) {
        m.remove(id)
    } else {
        m.insert(id, ())
    }
}

/// The selection set holding `id` alone.
pub open spec fn only(id: i32) -> Map<i32, ()> {
    Map::<i32, ()>::empty().insert(id, ())
}

/// Node and link selection after a click on link `id`: without shift the
/// node selection is cleared and the link becomes the only selected link
/// (or, if it already was, nothing stays selected); with shift the link is
/// toggled and the node selection kept.
pub open spec fn after_link_click(nodes: Map<i32, ()>, links: Map<i32, ()>, id: i32, shift: bool) -> (
    Map<i32, ()>,
    Map<i32, ()>,
) {
    if shift {
        (nodes, toggled(links, id))
    } else if links == only(id) {
        (Map::empty(), Map::empty())
    } else {
        (Map::empty(), only(id))
    }
}

/// Node and link selection after a click on node `id`: without shift the
/// link selection is cleared and the node becomes the only selected node;
/// with shift the node is toggled and the link selection kept.
pub open spec fn after_node_click(nodes: Map<i32, ()>, links: Map<i32, ()>, id: i32, shift: bool) -> (
    Map<i32, ()>,
    Map<i32, ()>,
) {
    if shift {
        (toggled(nodes, id), links)
    } else {
        (only(id), Map::empty())
    }
}

/// Selecting a link without shift leaves no node selected; selecting a node
/// without shift leaves no link selected.
pub proof fn lemma_selection_kinds_exclusive(nodes: Map<i32, ()>, links: Map<i32, ()>, id: i32)
    ensures
        after_link_click(nodes, links, id, false).0.is_empty(),
        after_node_click(nodes, links, id, false).1.is_empty(),
        after_node_click(nodes, links, id, false).0 == only(id),
{
    assert(Map::<i32, ()>::empty().is_empty());
}

impl NodeEditorOverlay {
    pub open spec fn wf(&self) -> bool {
        &&& 1 <= self.min_zoom <= self.zoom <= self.max_zoom <= ZOOM_LIMIT
        &&& within(self.pan_x as int, PAN_LIMIT as int)
        &&& within(self.pan_y as int, PAN_LIMIT as int)
        &&& self.pin_positions.wf()
        &&& self.node_rects.wf()
        &&& self.links.wf()
        &&& self.selected_nodes.wf()
        &&& self.selected_links.wf()
    }

    /// Everything but the signal queue is as in `other`.
    pub open spec fn same_state(&self, other: &Self) -> bool {
        &&& self.pan_x == other.pan_x
        &&& self.pan_y == other.pan_y
        &&& self.zoom == other.zoom
        &&& self.min_zoom == other.min_zoom
        &&& self.max_zoom == other.max_zoom
        &&& self.pin_hit_radius == other.pin_hit_radius
        &&& self.link_hover_distance == other.link_hover_distance
        &&& self.mode == other.mode
        &&& self.hovered_link_id == other.hovered_link_id
        &&& self.pin_positions@ == other.pin_positions@
        &&& self.node_rects@ == other.node_rects@
        &&& self.links@ == other.links@
        &&& self.selected_nodes@ == other.selected_nodes@
        &&& self.selected_links@ == other.selected_links@
        &&& self.link_geometry@ == other.link_geometry@
    }

    /// Viewport and configuration are as in `other`.
    pub open spec fn same_view(&self, other: &Self) -> bool {
        &&& self.pan_x == other.pan_x
        &&& self.pan_y == other.pan_y
        &&& self.zoom == other.zoom
        &&& self.min_zoom == other.min_zoom
        &&& self.max_zoom == other.max_zoom
        &&& self.pin_hit_radius == other.pin_hit_radius
        &&& self.link_hover_distance == other.link_hover_distance
    }

    /// The three registries are as in `other`.
    pub open spec fn same_registries(&self, other: &Self) -> bool {
        &&& self.pin_positions == other.pin_positions
        &&& self.node_rects == other.node_rects
        &&& self.links == other.links
    }

    /// Both selection sets are as in `other`.
    pub open spec fn same_selection(&self, other: &Self) -> bool {
        &&& self.selected_nodes == other.selected_nodes
        &&& self.selected_links == other.selected_links
    }

    pub open spec fn is_panning(&self) -> bool {
        self.mode is Panning
    }

    pub open spec fn is_box_selecting(&self) -> bool {
        self.mode is BoxSelecting
    }

    pub open spec fn is_creating_link(&self) -> bool {
        self.mode is CreatingLink
    }

    pub open spec fn is_dragging(&self) -> bool {
        self.mode is Dragging
    }

    /// An overlay with no registered geometry, at zoom one (held within the
    /// zoom range), with zoom bounds held within what the editor accepts.
    pub fn new(min_zoom: i64, max_zoom: i64, pin_hit_radius: i32, link_hover_distance: i32) -> (r:
        Self)
        ensures
            r.wf(),
            r.min_zoom == clamp(min_zoom as int, 1, ZOOM_LIMIT as int),
            r.max_zoom == clamp(max_zoom as int, r.min_zoom as int, ZOOM_LIMIT as int),
            r.zoom == clamp(ZOOM_ONE as int, r.min_zoom as int, r.max_zoom as int),
            r.pan_x == 0 && r.pan_y == 0,
            r.pin_hit_radius == pin_hit_radius,
            r.link_hover_distance == link_hover_distance,
            r.mode == Mode::Idle,
            r.hovered_link_id == NO_LINK,
            r.pin_positions@.is_empty(),
            r.node_rects@.is_empty(),
            r.links@.is_empty(),
            r.selected_nodes@.is_empty(),
            r.selected_links@.is_empty(),
            r.link_geometry@.len() == 0,
            r.events@.len() == 0,
    {
        let lo = clamp_i64(min_zoom, 1, ZOOM_LIMIT);
        let hi = clamp_i64(max_zoom, lo, ZOOM_LIMIT);
        NodeEditorOverlay {
            pan_x: 0,
            pan_y: 0,
            zoom: clamp_i64(ZOOM_ONE, lo, hi),
            min_zoom: lo,
            max_zoom: hi,
            pin_hit_radius,
            link_hover_distance,
            mode: Mode::Idle,
            hovered_link_id: NO_LINK,
            pin_positions: IdMap::new(),
            node_rects: IdMap::new(),
            links: IdMap::new(),
            selected_nodes: IdMap::new(),
            selected_links: IdMap::new(),
            link_geometry: Vec::new(),
            events: Vec::new(),
        }
    }

    /// Hands the queued signals to the host, oldest first.
    pub fn take_events(&mut self) -> (r: Vec<Signal>)
        ensures
            r@ == old(self).events@,
            final(self).events@.len() == 0,
            final(self).same_state(old(self)),
            final(self).wf() == old(self).wf(),
    {
        let mut out = Vec::new();
        std::mem::swap(&mut out, &mut self.events);
        out
    }

    /// Records a pin's screen position.
    pub fn report_pin(&mut self, pin_id: i32, position: Point)
        requires
            old(self).wf(),
        ensures
            final(self).wf(),
            final(self).pin_positions@ == old(self).pin_positions@.insert(pin_id, position),
            final(self).node_rects@ == old(self).node_rects@,
            final(self).links@ == old(self).links@,
            final(self).selected_nodes@ == old(self).selected_nodes@,
            final(self).selected_links@ == old(self).selected_links@,
            final(self).mode == old(self).mode,
            final(self).events@ == old(self).events@,
            final(self).same_view(old(self)),
            final(self).link_geometry == old(self).link_geometry,
            final(self).hovered_link_id == old(self).hovered_link_id,
    {
        self.pin_positions.insert(pin_id, position);
    }

    /// Records a node's rectangle. Link geometry is not recomputed here: a
    /// processing pass recomputes it once after all its reports.
    pub fn report_node_rect(&mut self, node_id: i32, rect: NodeRect)
        requires
            old(self).wf(),
        ensures
            final(self).wf(),
            final(self).node_rects@ == old(self).node_rects@.insert(node_id, rect),
            final(self).pin_positions@ == old(self).pin_positions@,
            final(self).links@ == old(self).links@,
            final(self).selected_nodes@ == old(self).selected_nodes@,
            final(self).selected_links@ == old(self).selected_links@,
            final(self).mode == old(self).mode,
            final(self).events@ == old(self).events@,
            final(self).same_view(old(self)),
            final(self).link_geometry == old(self).link_geometry,
            final(self).hovered_link_id == old(self).hovered_link_id,
    {
        self.node_rects.insert(node_id, rect);
    }

    /// Records a link as reported, replacing any link with that id.
    pub fn report_link(&mut self, link_id: i32, link: LinkRecord)
        requires
            old(self).wf(),
        ensures
            final(self).wf(),
            final(self).links@ == old(self).links@.insert(link_id, link),
            final(self).pin_positions@ == old(self).pin_positions@,
            final(self).node_rects@ == old(self).node_rects@,
            final(self).selected_nodes@ == old(self).selected_nodes@,
            final(self).selected_links@ == old(self).selected_links@,
            final(self).mode == old(self).mode,
            final(self).events@ == old(self).events@,
            final(self).same_view(old(self)),
            final(self).link_geometry == old(self).link_geometry,
            final(self).hovered_link_id == old(self).hovered_link_id,
    {
        self.links.insert(link_id, link);
    }

    /// Records pin positions in order.
    pub fn report_pins_batch(&mut self, batch: &Vec<(i32, Point)>)
        requires
            old(self).wf(),
        ensures
            final(self).wf(),
            final(self).pin_positions@ == apply_all(old(self).pin_positions@, batch@),
            final(self).node_rects@ == old(self).node_rects@,
            final(self).links@ == old(self).links@,
            final(self).selected_nodes@ == old(self).selected_nodes@,
            final(self).selected_links@ == old(self).selected_links@,
            final(self).mode == old(self).mode,
            final(self).events@ == old(self).events@,
            final(self).same_view(old(self)),
            final(self).link_geometry == old(self).link_geometry,
            final(self).hovered_link_id == old(self).hovered_link_id,
    {
        let mut i: usize = 0;
        while i < batch.len()
            invariant
                i <= batch@.len(),
                self.wf(),
                self.pin_positions@ == apply_all(old(self).pin_positions@, batch@.take(i as int)),
                self.node_rects@ == old(self).node_rects@,
                self.links@ == old(self).links@,
                self.selected_nodes@ == old(self).selected_nodes@,
                self.selected_links@ == old(self).selected_links@,
                self.mode == old(self).mode,
                self.events@ == old(self).events@,
                self.same_view(old(self)),
                self.link_geometry == old(self).link_geometry,
                self.hovered_link_id == old(self).hovered_link_id,
            decreases batch@.len() - i,
        {
            let (id, p) = batch[i];
            self.report_pin(id, p);
            assert(batch@.take(i as int + 1).drop_last() =~= batch@.take(i as int));
            i += 1;
        }
        assert(batch@.take(i as int) =~= batch@);
    }

    /// Records node rectangles in order.
    pub fn report_node_rects_batch(&mut self, batch: &Vec<(i32, NodeRect)>)
        requires
            old(self).wf(),
        ensures
            final(self).wf(),
            final(self).node_rects@ == apply_all(old(self).node_rects@, batch@),
            final(self).pin_positions@ == old(self).pin_positions@,
            final(self).links@ == old(self).links@,
            final(self).selected_nodes@ == old(self).selected_nodes@,
            final(self).selected_links@ == old(self).selected_links@,
            final(self).mode == old(self).mode,
            final(self).events@ == old(self).events@,
            final(self).same_view(old(self)),
            final(self).link_geometry == old(self).link_geometry,
            final(self).hovered_link_id == old(self).hovered_link_id,
    {
        let mut i: usize = 0;
        while i < batch.len()
            invariant
                i <= batch@.len(),
                self.wf(),
                self.node_rects@ == apply_all(old(self).node_rects@, batch@.take(i as int)),
                self.pin_positions@ == old(self).pin_positions@,
                self.links@ == old(self).links@,
                self.selected_nodes@ == old(self).selected_nodes@,
                self.selected_links@ == old(self).selected_links@,
                self.mode == old(self).mode,
                self.events@ == old(self).events@,
                self.same_view(old(self)),
                self.link_geometry == old(self).link_geometry,
                self.hovered_link_id == old(self).hovered_link_id,
            decreases batch@.len() - i,
        {
            let (id, r) = batch[i];
            self.report_node_rect(id, r);
            assert(batch@.take(i as int + 1).drop_last() =~= batch@.take(i as int));
            i += 1;
        }
        assert(batch@.take(i as int) =~= batch@);
    }

    /// Records links in order.
    pub fn report_links_batch(&mut self, batch: &Vec<(i32, LinkRecord)>)
        requires
            old(self).wf(),
        ensures
            final(self).wf(),
            final(self).links@ == apply_all(old(self).links@, batch@),
            final(self).pin_positions@ == old(self).pin_positions@,
            final(self).node_rects@ == old(self).node_rects@,
            final(self).selected_nodes@ == old(self).selected_nodes@,
            final(self).selected_links@ == old(self).selected_links@,
            final(self).mode == old(self).mode,
            final(self).events@ == old(self).events@,
            final(self).same_view(old(self)),
            final(self).link_geometry == old(self).link_geometry,
            final(self).hovered_link_id == old(self).hovered_link_id,
    {
        let mut i: usize = 0;
        while i < batch.len()
            invariant
                i <= batch@.len(),
                self.wf(),
                self.links@ == apply_all(old(self).links@, batch@.take(i as int)),
                self.pin_positions@ == old(self).pin_positions@,
                self.node_rects@ == old(self).node_rects@,
                self.selected_nodes@ == old(self).selected_nodes@,
                self.selected_links@ == old(self).selected_links@,
                self.mode == old(self).mode,
                self.events@ == old(self).events@,
                self.same_view(old(self)),
                self.link_geometry == old(self).link_geometry,
                self.hovered_link_id == old(self).hovered_link_id,
            decreases batch@.len() - i,
        {
            let (id, l) = batch[i];
            self.report_link(id, l);
            assert(batch@.take(i as int + 1).drop_last() =~= batch@.take(i as int));
            i += 1;
        }
        assert(batch@.take(i as int) =~= batch@);
    }

    /// Forgets the listed links, and drops them from the link selection.
    pub fn report_deleted_links(&mut self, ids: &Vec<i32>)
        requires
            old(self).wf(),
        ensures
            final(self).wf(),
            final(self).links@ == remove_all(old(self).links@, ids@),
            final(self).selected_links@ == remove_all(old(self).selected_links@, ids@),
            final(self).pin_positions@ == old(self).pin_positions@,
            final(self).node_rects@ == old(self).node_rects@,
            final(self).selected_nodes@ == old(self).selected_nodes@,
            final(self).mode == old(self).mode,
            final(self).events@ == old(self).events@,
            final(self).same_view(old(self)),
            final(self).link_geometry == old(self).link_geometry,
            final(self).hovered_link_id == old(self).hovered_link_id,
    {
        let mut i: usize = 0;
        while i < ids.len()
            invariant
                i <= ids@.len(),
                self.wf(),
                self.links@ == remove_all(old(self).links@, ids@.take(i as int)),
                self.selected_links@ == remove_all(old(self).selected_links@, ids@.take(i as int)),
                self.pin_positions@ == old(self).pin_positions@,
                self.node_rects@ == old(self).node_rects@,
                self.selected_nodes@ == old(self).selected_nodes@,
                self.mode == old(self).mode,
                self.events@ == old(self).events@,
                self.same_view(old(self)),
                self.link_geometry == old(self).link_geometry,
                self.hovered_link_id == old(self).hovered_link_id,
            decreases ids@.len() - i,
        {
            let id = ids[i];
            self.links.remove(id);
            self.selected_links.remove(id);
            assert(ids@.take(i as int + 1).drop_last() =~= ids@.take(i as int));
            i += 1;
        }
        assert(ids@.take(i as int) =~= ids@);
    }

    /// A squared distance in square pixels is within the pin hit radius: the
    /// configured one when it is positive, else the default one.
    pub open spec fn within_pin_radius(&self, d2: int) -> bool {
        if self.pin_hit_radius > 0 {
            d2 <= sq(self.pin_hit_radius as int)
        } else {
            within_default_pin_radius(d2, self.zoom as int)
        }
    }

    fn pin_radius_hit(&self, d2: i128) -> (r: bool)
        requires
            self.wf(),
            0 <= d2 <= 0x2_0000_0000_0000_0000,
        ensures
            r == self.within_pin_radius(d2 as int),
    {
        if self.pin_hit_radius > 0 {
            let radius = self.pin_hit_radius as i128;
            assert(0 <= radius * radius <= 0x8000_0000 * 0x8000_0000) by (nonlinear_arith)
                requires
                    0 < radius <= 0x8000_0000,
            ;
            d2 <= radius * radius
        } else {
            let diameter66 = 792 * (self.zoom as i128);
            assert(0 <= diameter66 * diameter66 <= 80_000_000 * 80_000_000) by (nonlinear_arith)
                requires
                    0 <= diameter66 <= 80_000_000,
            ;
            d2 * 10_000_000_000 <= diameter66 * diameter66
        }
    }

    /// `pin` is registered and `(x, y)` lies within the hit radius of it.
    pub open spec fn pin_hit(&self, pin: i32, x: int, y: int) -> bool {
        &&& self.pin_positions@.contains_key(pin)
        &&& self.within_pin_radius(
            sq(x - self.pin_positions@[pin].x) + sq(y - self.pin_positions@[pin].y),
        )
    }

    /// No pin is within the hit radius of the point.
    pub open spec fn no_pin_hit(&self, x: int, y: int) -> bool {
        forall|p: i32| !#[trigger] self.pin_hit(p, x, y)
    }

    /// `pin` is the lowest pin id within the hit radius of the point.
    pub open spec fn first_pin_hit(&self, pin: i32, x: int, y: int) -> bool {
        self.pin_hit(pin, x, y) && forall|p: i32| p < pin ==> !#[trigger] self.pin_hit(p, x, y)
    }

    /// The pin under a point: the lowest registered pin id within the hit
    /// radius, or `NO_PIN` when there is none.
    pub open spec fn spec_pin_at(&self, x: int, y: int) -> i32 {
        if self.no_pin_hit(x, y) {
            NO_PIN
        } else {
            choose|p: i32| self.first_pin_hit(p, x, y)
        }
    }

    proof fn lemma_first_pin_unique(&self, p: i32, x: int, y: int)
        requires
            self.first_pin_hit(p, x, y),
        ensures
            self.spec_pin_at(x, y) == p,
    {
        let q = choose|q: i32| self.first_pin_hit(q, x, y);
        assert(self.first_pin_hit(q, x, y));
        if q < p {
            assert(!self.pin_hit(q, x, y));
        } else if p < q {
            assert(!self.pin_hit(p, x, y));
        }
    }

    /// The pin under a point: the lowest registered pin id within the hit
    /// radius, or `NO_PIN` when there is none.
    pub fn find_pin_at(&self, x: i32, y: i32) -> (r: i32)
        requires
            self.wf(),
        ensures
            self.no_pin_hit(x as int, y as int) ==> r == NO_PIN,
            !self.no_pin_hit(x as int, y as int) ==> self.first_pin_hit(r, x as int, y as int),
            r == self.spec_pin_at(x as int, y as int),
    {
        let n = self.pin_positions.len();
        let ghost s = self.pin_positions.entries@;
        proof {
            lemma_map_of_entries(s);
        }
        let mut i: usize = 0;
        while i < n
            invariant
                n == s.len(),
                s == self.pin_positions.entries@,
                sorted_ids(s),
                i <= n,
                self.wf(),
                forall|j: int| 0 <= j < i ==> !#[trigger] self.pin_hit(s[j].0, x as int, y as int),
            decreases n - i,
        {
            let (id, p) = self.pin_positions.entry(i);
            let dx = (x as i128) - (p.x as i128);
            let dy = (y as i128) - (p.y as i128);
            proof {
                assert(0 <= dx * dx <= 0x1_0000_0000 * 0x1_0000_0000) by (nonlinear_arith)
                    requires
                        -0x1_0000_0000 <= dx <= 0x1_0000_0000,
                ;
                assert(0 <= dy * dy <= 0x1_0000_0000 * 0x1_0000_0000) by (nonlinear_arith)
                    requires
                        -0x1_0000_0000 <= dy <= 0x1_0000_0000,
                ;
            }
            if self.pin_radius_hit(dx * dx + dy * dy) {
                proof {
                    assert forall|q: i32| q < id implies !#[trigger] self.pin_hit(q, x as int, y as int) by {
                        if self.pin_positions@.contains_key(q) {
                            let j = choose|j: int| 0 <= j < s.len() && s[j].0 == q;
                            if j >= i {
                                assert(s[i as int].0 <= s[j].0);
                            }
                        }
                    }
                }
                assert(self.pin_positions@[id] == p);
                assert(self.pin_hit(id, x as int, y as int));
                proof {
                    self.lemma_first_pin_unique(id, x as int, y as int);
                }
                return id;
            }
            i += 1;
        }
        proof {
            assert forall|q: i32| !#[trigger] self.pin_hit(q, x as int, y as int) by {
                if self.pin_positions@.contains_key(q) {
                    let j = choose|j: int| 0 <= j < s.len() && s[j].0 == q;
                }
            }
        }
        NO_PIN
    }

    /// Some link already joins `output_pin` to `input_pin`.
    pub open spec fn spec_link_exists(&self, output_pin: i32, input_pin: i32) -> bool {
        exists|id: i32|
            #![trigger self.links@[id]]
            self.links@.contains_key(id) && self.links@[id].start_pin_id == output_pin
                && self.links@[id].end_pin_id == input_pin
    }

    pub fn link_exists(&self, output_pin: i32, input_pin: i32) -> (r: bool)
        requires
            self.wf(),
        ensures
            r == self.spec_link_exists(output_pin, input_pin),
    {
        let ghost s = self.links.entries@;
        proof {
            lemma_map_of_entries(s);
        }
        let mut i: usize = 0;
        while i < self.links.len()
            invariant
                s == self.links.entries@,
                sorted_ids(s),
                i <= s.len(),
                forall|j: int|
                    0 <= j < i ==> !(#[trigger] s[j].1.start_pin_id == output_pin && s[j].1.end_pin_id
                        == input_pin),
            decreases s.len() - i,
        {
            let (id, l) = self.links.entry(i);
            if l.start_pin_id == output_pin && l.end_pin_id == input_pin {
                assert(self.links@[id] == l);
                return true;
            }
            i += 1;
        }
        proof {
            if self.spec_link_exists(output_pin, input_pin) {
                let id = choose|id: i32|
                    #![trigger self.links@[id]]
                    self.links@.contains_key(id) && self.links@[id].start_pin_id == output_pin
                        && self.links@[id].end_pin_id == input_pin;
                let j = choose|j: int| 0 <= j < s.len() && s[j].0 == id;
                assert(self.links@[s[j].0] == s[j].1);
            }
        }
        false
    }

    /// The drag offset in effect, zero when no drag is in progress.
    pub open spec fn drag_offset(&self) -> (int, int) {
        match self.mode {
            Mode::Dragging { offset_x, offset_y } => (offset_x as int, offset_y as int),
            _ => (0, 0),
        }
    }

    /// Where a link end at `pin` is drawn: from its node's rectangle, moved by
    /// the drag offset while that node is selected and being dragged; `None`
    /// while the node's rectangle is unknown.
    pub open spec fn spec_endpoint(&self, pin: i32) -> Option<Pos> {
        let node = node_of(pin) as i32;
        if self.node_rects@.contains_key(node) {
            let base = pin_position(pin, self.node_rects@[node], self.zoom as int);
            let base_pos = Pos { x: base.0 as i64, y: base.1 as i64 };
            let p = if self.is_dragging() && self.selected_nodes@.contains_key(node) {
                shifted(base_pos, self.drag_offset().0, self.drag_offset().1, self.zoom as int)
            } else {
                base
            };
            Some(Pos { x: p.0 as i64, y: p.1 as i64 })
        } else {
            None
        }
    }

    /// Geometry of link `id`, when both its nodes are known.
    pub open spec fn spec_link_geometry(&self, id: i32, link: LinkRecord) -> Option<LinkGeometry> {
        match (self.spec_endpoint(link.start_pin_id), self.spec_endpoint(link.end_pin_id)) {
            (Some(a), Some(b)) => Some(
                LinkGeometry {
                    link_id: id,
                    start: a,
                    end: b,
                    color: link.color,
                    path: link_curve(a, b, self.zoom as int),
                },
            ),
            _ => None,
        }
    }

    /// Geometry of the listed links, in order, leaving out those with an
    /// unknown node.
    pub open spec fn geometry_of(&self, s: Seq<(i32, LinkRecord)>) -> Seq<LinkGeometry>
        decreases s.len(),
    {
        if s.len() == 0 {
            Seq::empty()
        } else {
            let rest = self.geometry_of(s.drop_last());
            match self.spec_link_geometry(s.last().0, s.last().1) {
                Some(g) => rest.push(g),
                None => rest,
            }
        }
    }

    proof fn lemma_geometry_frame(&self, other: &Self, s: Seq<(i32, LinkRecord)>)
        requires
            self.node_rects@ == other.node_rects@,
            self.selected_nodes@ == other.selected_nodes@,
            self.zoom == other.zoom,
            self.mode == other.mode,
        ensures
            self.geometry_of(s) == other.geometry_of(s),
        decreases s.len(),
    {
        if s.len() > 0 {
            self.lemma_geometry_frame(other, s.drop_last());
            assert(self.spec_link_geometry(s.last().0, s.last().1) == other.spec_link_geometry(
                s.last().0,
                s.last().1,
            ));
        }
    }

    /// Geometry of all registered links, in link id order.
    pub open spec fn expected_geometry(&self) -> Seq<LinkGeometry> {
        self.geometry_of(self.links.entries@)
    }

    fn endpoint(&self, pin: i32) -> (r: Option<Pos>)
        requires
            self.wf(),
        ensures
            r == self.spec_endpoint(pin),
            r matches Some(p) ==> pos_within(p, END_LIMIT as int),
    {
        let node = node_id_of(pin);
        match self.node_rects.get(node) {
            None => None,
            Some(rect) => {
                let base = compute_pin_screen_position(pin, &rect, self.zoom);
                match self.mode {
                    Mode::Dragging { offset_x, offset_y } => {
                        if self.selected_nodes.contains(node) {
                            Some(shift_by_zoomed(base, offset_x, offset_y, self.zoom))
                        } else {
                            Some(base)
                        }
                    },
                    _ => Some(base),
                }
            },
        }
    }

    fn link_geometry_for(&self, id: i32, link: LinkRecord) -> (r: Option<LinkGeometry>)
        requires
            self.wf(),
        ensures
            r == self.spec_link_geometry(id, link),
            r matches Some(g) ==> pos_within(g.start, END_LIMIT as int) && pos_within(
                g.end,
                END_LIMIT as int,
            ) && crate::geometry::curve_within(g.path, 2 * END_LIMIT),
    {
        match self.endpoint(link.start_pin_id) {
            None => None,
            Some(a) => match self.endpoint(link.end_pin_id) {
                None => None,
                Some(b) => Some(
                    LinkGeometry {
                        link_id: id,
                        start: a,
                        end: b,
                        color: link.color,
                        path: create_bezier_from_endpoints(a, b, self.zoom),
                    },
                ),
            },
        }
    }

    /// Recomputes the geometry of every link from the registries, the zoom
    /// and the drag offset, and signals the change.
    pub fn regenerate_link_positions(&mut self)
        requires
            old(self).wf(),
        ensures
            final(self).wf(),
            final(self).link_geometry@ == old(self).expected_geometry(),
            final(self).link_geometry@ == final(self).expected_geometry(),
            final(self).events@ == old(self).events@.push(Signal::LinkPositionsChanged),
            final(self).pan_x == old(self).pan_x,
            final(self).pan_y == old(self).pan_y,
            final(self).zoom == old(self).zoom,
            final(self).min_zoom == old(self).min_zoom,
            final(self).max_zoom == old(self).max_zoom,
            final(self).pin_hit_radius == old(self).pin_hit_radius,
            final(self).link_hover_distance == old(self).link_hover_distance,
            final(self).mode == old(self).mode,
            final(self).hovered_link_id == old(self).hovered_link_id,
            final(self).pin_positions == old(self).pin_positions,
            final(self).node_rects == old(self).node_rects,
            final(self).links == old(self).links,
            final(self).selected_nodes == old(self).selected_nodes,
            final(self).selected_links == old(self).selected_links,
    {
        let mut out: Vec<LinkGeometry> = Vec::new();
        let ghost s = self.links.entries@;
        let mut i: usize = 0;
        while i < self.links.len()
            invariant
                self.wf(),
                s == self.links.entries@,
                i <= s.len(),
                out@ == self.geometry_of(s.take(i as int)),
            decreases s.len() - i,
        {
            let (id, link) = self.links.entry(i);
            assert(s.take(i as int + 1).drop_last() =~= s.take(i as int));
            match self.link_geometry_for(id, link) {
                Some(g) => out.push(g),
                None => {},
            }
            i += 1;
        }
        assert(s.take(i as int) =~= s);
        self.link_geometry = out;
        self.events.push(Signal::LinkPositionsChanged);
        proof {
            self.lemma_geometry_frame(old(self), s);
        }
    }

    /// Squared distance from the point to link `id`'s curve, when the link is
    /// registered and both its nodes are known.
    pub open spec fn link_dist(&self, id: i32, x: int, y: int) -> Option<int> {
        if self.links@.contains_key(id) {
            match self.spec_link_geometry(id, self.links@[id]) {
                Some(g) => Some(curve_dist_sq((x, y), g.path, CURVE_SEGMENTS as int)),
                None => None,
            }
        } else {
            None
        }
    }

    /// The point is closer to link `id` than the hover distance.
    pub open spec fn link_hit(&self, id: i32, x: int, y: int) -> bool {
        self.link_hover_distance > 0 && match self.link_dist(id, x, y) {
            Some(d) => d < sq(self.link_hover_distance as int),
            None => false,
        }
    }

    pub open spec fn no_link_hit(&self, x: int, y: int) -> bool {
        forall|id: i32| !#[trigger] self.link_hit(id, x, y)
    }

    /// `id` is a closest link hit by the point, the lowest id among equals.
    pub open spec fn closest_link_hit(&self, id: i32, x: int, y: int) -> bool {
        &&& self.link_hit(id, x, y)
        &&& forall|other: i32| #[trigger]
            self.link_hit(other, x, y) ==> self.link_dist(id, x, y)->0 <= self.link_dist(
                other,
                x,
                y,
            )->0 && (other < id ==> self.link_dist(id, x, y)->0 < self.link_dist(other, x, y)->0)
    }

    /// The link under a point: the one whose curve is closest, if closer than
    /// the hover distance (the lowest id among equally close ones), else
    /// `NO_LINK`.
    pub open spec fn spec_link_at(&self, x: int, y: int) -> i32 {
        if self.no_link_hit(x, y) {
            NO_LINK
        } else {
            choose|id: i32| self.closest_link_hit(id, x, y)
        }
    }

    proof fn lemma_closest_link_unique(&self, id: i32, x: int, y: int)
        requires
            self.closest_link_hit(id, x, y),
        ensures
            self.spec_link_at(x, y) == id,
    {
        assert(self.link_hit(id, x, y));
        let q = choose|q: i32| self.closest_link_hit(q, x, y);
        assert(self.closest_link_hit(q, x, y));
        assert(self.link_hit(q, x, y));
    }

    /// The link under a point: the one whose curve is closest, if closer than
    /// the hover distance (the lowest id among equally close ones), else
    /// `NO_LINK`.
    pub fn find_link_at(&self, x: i32, y: i32) -> (r: i32)
        requires
            self.wf(),
        ensures
            self.no_link_hit(x as int, y as int) ==> r == NO_LINK,
            !self.no_link_hit(x as int, y as int) ==> self.closest_link_hit(r, x as int, y as int),
            r == self.spec_link_at(x as int, y as int),
    {
        let ghost s = self.links.entries@;
        proof {
            lemma_map_of_entries(s);
        }
        if self.link_hover_distance <= 0 {
            assert(self.no_link_hit(x as int, y as int));
            return NO_LINK;
        }
        let hover = self.link_hover_distance as i128;
        let point = Point { x, y };
        assert(0 < hover * hover <= 0x8000_0000 * 0x8000_0000) by (nonlinear_arith)
            requires
                0 < hover <= 0x8000_0000,
        ;
        let mut best: i128 = hover * hover;
        let mut closest: i32 = NO_LINK;
        let ghost mut found = false;
        let ghost mut k: int = 0;
        let mut i: usize = 0;
        while i < self.links.len()
            invariant
                self.wf(),
                s == self.links.entries@,
                sorted_ids(s),
                forall|j: int|
                    0 <= j < s.len() ==> #[trigger] self.links@[s[j].0] == s[j].1
                        && self.links@.contains_key(s[j].0),
                i <= s.len(),
                point == (Point { x, y }),
                self.link_hover_distance > 0,
                found ==> {
                    &&& 0 <= k < i
                    &&& closest == s[k].0
                    &&& self.link_hit(closest, x as int, y as int)
                    &&& best == self.link_dist(closest, x as int, y as int)->0
                },
                !found ==> closest == NO_LINK && best == sq(self.link_hover_distance as int),
                forall|j: int|
                    0 <= j < i && #[trigger] self.link_hit(s[j].0, x as int, y as int) ==> found && best
                        <= self.link_dist(s[j].0, x as int, y as int)->0 && (j < k ==> best
                        < self.link_dist(s[j].0, x as int, y as int)->0),
            decreases s.len() - i,
        {
            let (id, link) = self.links.entry(i);
            match self.link_geometry_for(id, link) {
                Some(g) => {
                    let d = distance_to_bezier_sq(point, &g.path);
                    if d < best {
                        proof {
                            found = true;
                            k = i as int;
                        }
                        best = d;
                        closest = id;
                    }
                },
                None => {},
            }
            i += 1;
        }
        proof {
            assert forall|id: i32| #[trigger] self.link_hit(id, x as int, y as int) implies found
                && best <= self.link_dist(id, x as int, y as int)->0 && (id < closest ==> best
                < self.link_dist(id, x as int, y as int)->0) by {
                let j = choose|j: int| 0 <= j < s.len() && s[j].0 == id;
                assert(self.link_hit(s[j].0, x as int, y as int));
                if id < closest && found {
                    if j >= k {
                        assert(s[k].0 <= s[j].0);
                    }
                }
            }
            if found {
                self.lemma_closest_link_unique(closest, x as int, y as int);
            }
        }
        closest
    }

    /// Clears the link selection, signalling only when it was not empty.
    pub fn clear_link_selection(&mut self)
        requires
            old(self).wf(),
        ensures
            final(self).wf(),
            final(self).selected_links@.is_empty(),
            final(self).events@ == if old(self).selected_links@.is_empty() {
                old(self).events@
            } else {
                old(self).events@.push(Signal::LinkSelectionChanged)
            },
            final(self).selected_nodes == old(self).selected_nodes,
            final(self).pin_positions == old(self).pin_positions,
            final(self).node_rects == old(self).node_rects,
            final(self).links == old(self).links,
            final(self).mode == old(self).mode,
            final(self).pan_x == old(self).pan_x,
            final(self).pan_y == old(self).pan_y,
            final(self).zoom == old(self).zoom,
            final(self).min_zoom == old(self).min_zoom,
            final(self).max_zoom == old(self).max_zoom,
            final(self).pin_hit_radius == old(self).pin_hit_radius,
            final(self).link_hover_distance == old(self).link_hover_distance,
            final(self).hovered_link_id == old(self).hovered_link_id,
            final(self).link_geometry == old(self).link_geometry,
    {
        proof {
            lemma_map_of_entries(self.selected_links.entries@);
        }
        if self.selected_links.len() == 0 {
            assert(self.selected_links@ =~= Map::<i32, ()>::empty());
            return;
        }
        assert(self.selected_links@.contains_key(self.selected_links.entries@[0].0));
        self.selected_links.clear();
        self.events.push(Signal::LinkSelectionChanged);
    }

    /// Selection update for a click on a link; see `after_link_click`.
    pub fn handle_link_click(&mut self, link_id: i32, shift_held: bool)
        requires
            old(self).wf(),
        ensures
            final(self).wf(),
            (final(self).selected_nodes@, final(self).selected_links@) == after_link_click(
                old(self).selected_nodes@,
                old(self).selected_links@,
                link_id,
                shift_held,
            ),
            final(self).events@ == old(self).events@.push(Signal::LinkSelectionChanged).push(
                Signal::SelectionChanged,
            ),
            final(self).pin_positions == old(self).pin_positions,
            final(self).node_rects == old(self).node_rects,
            final(self).links == old(self).links,
            final(self).mode == old(self).mode,
            final(self).pan_x == old(self).pan_x,
            final(self).pan_y == old(self).pan_y,
            final(self).zoom == old(self).zoom,
            final(self).min_zoom == old(self).min_zoom,
            final(self).max_zoom == old(self).max_zoom,
            final(self).pin_hit_radius == old(self).pin_hit_radius,
            final(self).link_hover_distance == old(self).link_hover_distance,
            final(self).hovered_link_id == old(self).hovered_link_id,
            final(self).link_geometry == old(self).link_geometry,
    {
        let ghost old_links = self.selected_links@;
        proof {
            lemma_map_of_entries(self.selected_links.entries@);
        }
        if !shift_held {
            self.selected_nodes.clear();
        }
        if shift_held {
            if self.selected_links.contains(link_id) {
                self.selected_links.remove(link_id);
            } else {
                self.selected_links.insert(link_id, ());
            }
        } else {
            let only_this = self.selected_links.len() == 1 && self.selected_links.contains(link_id);
            proof {
                let s = self.selected_links.entries@;
                if s.len() == 1 && old_links.contains_key(link_id) {
                    assert forall|k: i32| #[trigger] old_links.contains_key(k) implies k == link_id by {
                        let j = choose|j: int| 0 <= j < s.len() && s[j].0 == k;
                        let j2 = choose|j: int| 0 <= j < s.len() && s[j].0 == link_id;
                    }
                    assert(old_links =~= only(link_id));
                } else if old_links == only(link_id) {
                    assert(old_links.contains_key(link_id));
                    if s.len() >= 2 {
                        assert(old_links.contains_key(s[0].0));
                        assert(old_links.contains_key(s[1].0));
                        assert(s[0].0 < s[1].0);
                    }
                }
            }
            self.selected_links.clear();
            if !only_this {
                self.selected_links.insert(link_id, ());
            }
        }
        self.events.push(Signal::LinkSelectionChanged);
        self.events.push(Signal::SelectionChanged);
        proof {
            if !shift_held {
                assert(Map::<i32, ()>::empty().insert(link_id, ()) =~= only(link_id));
            }
        }
    }

    /// Selection update for a click on a node; see `after_node_click`.
    /// Signals a link selection change when one was cleared, then a
    /// selection change.
    pub fn handle_node_click(&mut self, node_id: i32, shift_held: bool)
        requires
            old(self).wf(),
        ensures
            final(self).wf(),
            (final(self).selected_nodes@, final(self).selected_links@) == after_node_click(
                old(self).selected_nodes@,
                old(self).selected_links@,
                node_id,
                shift_held,
            ),
            final(self).events@ == if !shift_held && !old(self).selected_links@.is_empty() {
                old(self).events@.push(Signal::LinkSelectionChanged).push(Signal::SelectionChanged)
            } else {
                old(self).events@.push(Signal::SelectionChanged)
            },
            final(self).pin_positions == old(self).pin_positions,
            final(self).node_rects == old(self).node_rects,
            final(self).links == old(self).links,
            final(self).mode == old(self).mode,
            final(self).pan_x == old(self).pan_x,
            final(self).pan_y == old(self).pan_y,
            final(self).zoom == old(self).zoom,
            final(self).min_zoom == old(self).min_zoom,
            final(self).max_zoom == old(self).max_zoom,
            final(self).pin_hit_radius == old(self).pin_hit_radius,
            final(self).link_hover_distance == old(self).link_hover_distance,
            final(self).hovered_link_id == old(self).hovered_link_id,
            final(self).link_geometry == old(self).link_geometry,
    {
        if !shift_held {
            self.clear_link_selection();
        }
        if shift_held {
            if self.selected_nodes.contains(node_id) {
                self.selected_nodes.remove(node_id);
            } else {
                self.selected_nodes.insert(node_id, ());
            }
        } else {
            self.selected_nodes.clear();
            self.selected_nodes.insert(node_id, ());
            assert(self.selected_nodes@ =~= only(node_id));
        }
        self.events.push(Signal::SelectionChanged);
    }

    /// What completing a link drag from `start_pin` onto `end_pin` signals:
    /// the normalised link when the pins are compatible and not yet linked,
    /// otherwise a drop.
    pub open spec fn link_outcome(&self, start_pin: i32, end_pin: i32) -> Signal {
        if end_pin != NO_PIN && compatible(start_pin, end_pin) {
            let (output_pin, input_pin) = normalized(start_pin, end_pin);
            if self.spec_link_exists(output_pin, input_pin) {
                Signal::LinkDropped
            } else {
                Signal::LinkCreated { start_pin: output_pin, end_pin: input_pin }
            }
        } else {
            Signal::LinkDropped
        }
    }

    /// Starts a link drag from a pin; only from `Idle`, with a pin id other
    /// than `NO_PIN`. Returns whether it started.
    pub fn start_link_creation(&mut self, pin_id: i32, x: i32, y: i32) -> (r: bool)
        requires
            old(self).wf(),
        ensures
            final(self).wf(),
            r == (old(self).mode == Mode::Idle && pin_id != NO_PIN),
            r ==> final(self).mode == (Mode::CreatingLink {
                start_pin: pin_id,
                origin: Point { x, y },
                current: Point { x, y },
            }),
            !r ==> final(self).mode == old(self).mode,
            final(self).same_view(old(self)),
            final(self).same_registries(old(self)),
            final(self).same_selection(old(self)),
            final(self).events == old(self).events,
            final(self).link_geometry == old(self).link_geometry,
            final(self).hovered_link_id == old(self).hovered_link_id,
    {
        if self.mode == Mode::Idle && pin_id != NO_PIN {
            let p = Point { x, y };
            self.mode = Mode::CreatingLink { start_pin: pin_id, origin: p, current: p };
            true
        } else {
            false
        }
    }

    /// Ends a link drag onto `end_pin` and signals the outcome.
    fn finish_link(&mut self, start_pin: i32, end_pin: i32)
        requires
            old(self).wf(),
        ensures
            final(self).wf(),
            final(self).mode == Mode::Idle,
            final(self).events@ == old(self).events@.push(old(self).link_outcome(start_pin, end_pin)),
            final(self).same_view(old(self)),
            final(self).same_registries(old(self)),
            final(self).same_selection(old(self)),
            final(self).link_geometry == old(self).link_geometry,
            final(self).hovered_link_id == old(self).hovered_link_id,
    {
        self.mode = Mode::Idle;
        if end_pin != NO_PIN && pins_compatible(start_pin, end_pin) {
            let (output_pin, input_pin) = normalize_link(start_pin, end_pin);
            if self.link_exists(output_pin, input_pin) {
                self.events.push(Signal::LinkDropped);
            } else {
                self.events.push(Signal::LinkCreated { start_pin: output_pin, end_pin: input_pin });
            }
        } else {
            self.events.push(Signal::LinkDropped);
        }
    }

    /// Completes a link drag: the target is `explicit_target` when it is not
    /// `NO_PIN`, else the pin under the drag's current end. Does nothing when
    /// no link drag is in progress. The link table itself is left to the
    /// host, which reports the link it creates.
    pub fn complete_link_creation(&mut self, explicit_target: i32)
        requires
            old(self).wf(),
        ensures
            final(self).wf(),
            final(self).same_view(old(self)),
            final(self).same_registries(old(self)),
            final(self).same_selection(old(self)),
            final(self).link_geometry == old(self).link_geometry,
            final(self).hovered_link_id == old(self).hovered_link_id,
            match old(self).mode {
                Mode::CreatingLink { start_pin, current, .. } => {
                    let end_pin = if explicit_target != NO_PIN {
                        explicit_target
                    } else {
                        old(self).spec_pin_at(current.x as int, current.y as int)
                    };
                    &&& final(self).mode == Mode::Idle
                    &&& final(self).events@ == old(self).events@.push(
                        old(self).link_outcome(start_pin, end_pin),
                    )
                },
                _ => final(self).mode == old(self).mode && final(self).events == old(self).events,
            },
    {
        match self.mode {
            Mode::CreatingLink { start_pin, current, .. } => {
                let end_pin = if explicit_target != NO_PIN {
                    explicit_target
                } else {
                    self.find_pin_at(current.x, current.y)
                };
                self.finish_link(start_pin, end_pin);
            },
            _ => {},
        }
    }

    /// The preview curve of a link drag in progress.
    pub fn link_preview_path(&self) -> (r: Option<CubicBezier>)
        requires
            self.wf(),
        ensures
            match self.mode {
                Mode::CreatingLink { origin, current, .. } => r == Some(
                    link_curve(point_units(origin), point_units(current), self.zoom as int),
                ),
                _ => r.is_none(),
            },
    {
        match self.mode {
            Mode::CreatingLink { origin, current, .. } => Some(
                create_bezier_from_endpoints(to_units(origin), to_units(current), self.zoom),
            ),
            _ => None,
        }
    }

    /// Nodes whose rectangles overlap the box spanned by two corners.
    pub open spec fn nodes_in_box(&self, a: Point, b: Point) -> Map<i32, ()> {
        let x = if a.x <= b.x { a.x as int } else { b.x as int };
        let y = if a.y <= b.y { a.y as int } else { b.y as int };
        let w = abs(b.x - a.x);
        let h = abs(b.y - a.y);
        Map::new(
            |id: i32| self.node_rects@.contains_key(id) && self.node_rects@[id].spec_intersects(x, y, w, h),
            |id: i32| (),
        )
    }

    /// Replaces the node selection with the nodes overlapping the box.
    fn select_nodes_in_box(&mut self, a: Point, b: Point)
        requires
            old(self).wf(),
        ensures
            final(self).wf(),
            final(self).selected_nodes@ == old(self).nodes_in_box(a, b),
            final(self).selected_links == old(self).selected_links,
            final(self).same_view(old(self)),
            final(self).same_registries(old(self)),
            final(self).mode == old(self).mode,
            final(self).events == old(self).events,
            final(self).link_geometry == old(self).link_geometry,
            final(self).hovered_link_id == old(self).hovered_link_id,
    {
        let ax = a.x as i64;
        let ay = a.y as i64;
        let bx = b.x as i64;
        let by = b.y as i64;
        let sel_x = if ax <= bx { ax } else { bx };
        let sel_y = if ay <= by { ay } else { by };
        let sel_w = if bx >= ax { bx - ax } else { ax - bx };
        let sel_h = if by >= ay { by - ay } else { ay - by };
        let ghost s = self.node_rects.entries@;
        let ghost target = old(self).nodes_in_box(a, b);
        proof {
            lemma_map_of_entries(s);
        }
        self.selected_nodes.clear();
        let mut i: usize = 0;
        while i < self.node_rects.len()
            invariant
                self.wf(),
                s == self.node_rects.entries@,
                sorted_ids(s),
                self.node_rects@ == old(self).node_rects@,
                forall|j: int|
                    0 <= j < s.len() ==> #[trigger] self.node_rects@[s[j].0] == s[j].1
                        && self.node_rects@.contains_key(s[j].0),
                i <= s.len(),
                target == old(self).nodes_in_box(a, b),
                sel_x == (if a.x <= b.x { a.x as int } else { b.x as int }),
                sel_y == (if a.y <= b.y { a.y as int } else { b.y as int }),
                sel_w == abs(b.x - a.x),
                sel_h == abs(b.y - a.y),
                forall|k: i32|
                    #[trigger] self.selected_nodes@.contains_key(k) <==> target.contains_key(k) && exists|
                        j: int,
                    | 0 <= j < i && s[j].0 == k,
                self.selected_links == old(self).selected_links,
                self.same_view(old(self)),
                self.same_registries(old(self)),
                self.mode == old(self).mode,
                self.events == old(self).events,
                self.link_geometry == old(self).link_geometry,
                self.hovered_link_id == old(self).hovered_link_id,
            decreases s.len() - i,
        {
            let (id, rect) = self.node_rects.entry(i);
            proof {
                assert(self.node_rects@[s[i as int].0] == s[i as int].1);
                assert(old(self).node_rects@.contains_key(id));
                assert(old(self).node_rects@[id] == rect);
                assert(target.contains_key(id) == rect.spec_intersects(
                    sel_x as int,
                    sel_y as int,
                    sel_w as int,
                    sel_h as int,
                ));
            }
            if rect.intersects(sel_x, sel_y, sel_w, sel_h) {
                self.selected_nodes.insert(id, ());
            }
            proof {
                assert forall|k: i32| #[trigger] self.selected_nodes@.contains_key(k) <==> target.contains_key(k)
                    && exists|j: int| 0 <= j < i + 1 && s[j].0 == k by {
                    if k == id {
                        assert(s[i as int].0 == k);
                    } else if exists|j: int| 0 <= j < i + 1 && s[j].0 == k {
                        let j = choose|j: int| 0 <= j < i + 1 && s[j].0 == k;
                        assert(j != i);
                    }
                }
            }
            i += 1;
        }
        proof {
            assert forall|k: i32| #[trigger] target.contains_key(k) implies exists|j: int|
                0 <= j < i && s[j].0 == k by {
                assert(self.node_rects@.contains_key(k));
            }
            assert(self.selected_nodes@ =~= target);
        }
    }

    /// Zooms one wheel step around the cursor, keeping the graph point under
    /// it in place. Returns whether the zoom changed; only then are the pan
    /// and link geometry updated and the viewport change signalled.
    pub fn zoom_at(&mut self, x: i32, y: i32, delta_y: i32) -> (r: bool)
        requires
            old(self).wf(),
        ensures
            final(self).wf(),
            final(self).zoom == wheel_zoom(
                old(self).zoom as int,
                delta_y as int,
                old(self).min_zoom as int,
                old(self).max_zoom as int,
            ),
            r == (final(self).zoom != old(self).zoom),
            !r ==> final(self).same_state(old(self)) && final(self).events == old(self).events,
            r ==> {
                &&& final(self).pan_x == zoom_pan(
                    x as int,
                    old(self).pan_x as int,
                    old(self).zoom as int,
                    final(self).zoom as int,
                )
                &&& final(self).pan_y == zoom_pan(
                    y as int,
                    old(self).pan_y as int,
                    old(self).zoom as int,
                    final(self).zoom as int,
                )
                &&& anchor_kept(
                    x as int,
                    old(self).pan_x as int,
                    old(self).zoom as int,
                    final(self).zoom as int,
                )
                &&& anchor_kept(
                    y as int,
                    old(self).pan_y as int,
                    old(self).zoom as int,
                    final(self).zoom as int,
                )
                &&& final(self).link_geometry@ == final(self).expected_geometry()
                &&& final(self).events@ == old(self).events@.push(Signal::LinkPositionsChanged).push(
                    Signal::ViewportChanged,
                )
            },
            final(self).min_zoom == old(self).min_zoom,
            final(self).max_zoom == old(self).max_zoom,
            final(self).pin_hit_radius == old(self).pin_hit_radius,
            final(self).link_hover_distance == old(self).link_hover_distance,
            final(self).same_registries(old(self)),
            final(self).same_selection(old(self)),
            final(self).mode == old(self).mode,
            final(self).hovered_link_id == old(self).hovered_link_id,
    {
        let z = self.zoom as u64;
        let scaled = if delta_y > 0 {
            z * 1100 / 1000
        } else {
            z * 900 / 1000
        };
        let new_zoom = clamp_i64(scaled as i64, self.min_zoom, self.max_zoom);
        if new_zoom == self.zoom {
            return false;
        }
        let old_zoom = self.zoom as i128;
        let nz = new_zoom as i128;
        let cx = (x as i128) * 2000;
        let cy = (y as i128) * 2000;
        let dx = cx - (self.pan_x as i128);
        let dy = cy - (self.pan_y as i128);
        proof {
            assert(within(dx * nz, 0x20_0000_0000_0000int * 100000) && within(
                dy * nz,
                0x20_0000_0000_0000int * 100000,
            )) by (nonlinear_arith)
                requires
                    within(dx as int, 0x20_0000_0000_0000),
                    within(dy as int, 0x20_0000_0000_0000),
                    1 <= nz <= 100000,
            ;
            lemma_div0_bound((dx * nz) as int, old_zoom as int, 0x20_0000_0000_0000int * 100000);
            lemma_div0_bound((dy * nz) as int, old_zoom as int, 0x20_0000_0000_0000int * 100000);
        }
        let qx = div_toward_zero(dx * nz, old_zoom);
        let qy = div_toward_zero(dy * nz, old_zoom);
        self.pan_x = clamp_pan(cx - qx);
        self.pan_y = clamp_pan(cy - qy);
        proof {
            let (oz, z2) = (old_zoom as int, nz as int);
            let (cxi, px) = (x as int, old(self).pan_x as int);
            let (cyi, py) = (y as int, old(self).pan_y as int);
            if within(cxi * UNITS_PER_PX - div0((cxi * UNITS_PER_PX - px) * z2, oz), PAN_LIMIT as int) {
                lemma_zoom_keeps_cursor_point(cxi, px, oz, z2);
            }
            if within(cyi * UNITS_PER_PX - div0((cyi * UNITS_PER_PX - py) * z2, oz), PAN_LIMIT as int) {
                lemma_zoom_keeps_cursor_point(cyi, py, oz, z2);
            }
        }
        self.zoom = new_zoom;
        let ghost pre = *self;
        self.regenerate_link_positions();
        self.events.push(Signal::ViewportChanged);
        proof {
            self.lemma_geometry_frame(&pre, self.links.entries@);
        }
        true
    }

    /// Enters `Dragging` from `Idle` with a zero offset; the host moves the
    /// selected nodes. Returns whether it did.
    pub fn begin_drag(&mut self) -> (r: bool)
        requires
            old(self).wf(),
        ensures
            final(self).wf(),
            r == (old(self).mode == Mode::Idle),
            r ==> final(self).mode == (Mode::Dragging { offset_x: 0, offset_y: 0 }),
            !r ==> final(self).mode == old(self).mode,
            final(self).same_view(old(self)),
            final(self).same_registries(old(self)),
            final(self).same_selection(old(self)),
            final(self).events == old(self).events,
            final(self).link_geometry == old(self).link_geometry,
            final(self).hovered_link_id == old(self).hovered_link_id,
    {
        if self.mode == Mode::Idle {
            self.mode = Mode::Dragging { offset_x: 0, offset_y: 0 };
            true
        } else {
            false
        }
    }

    /// Sets the offset of a drag in progress; otherwise does nothing.
    pub fn update_drag(&mut self, offset_x: i32, offset_y: i32)
        requires
            old(self).wf(),
        ensures
            final(self).wf(),
            old(self).is_dragging() ==> final(self).mode == (Mode::Dragging { offset_x, offset_y }),
            !old(self).is_dragging() ==> final(self).mode == old(self).mode,
            final(self).same_view(old(self)),
            final(self).same_registries(old(self)),
            final(self).same_selection(old(self)),
            final(self).events == old(self).events,
            final(self).link_geometry == old(self).link_geometry,
            final(self).hovered_link_id == old(self).hovered_link_id,
    {
        if let Mode::Dragging { .. } = self.mode {
            self.mode = Mode::Dragging { offset_x, offset_y };
        }
    }

    /// Ends a drag in progress and recomputes link geometry without the
    /// offset; otherwise does nothing.
    pub fn end_drag(&mut self)
        requires
            old(self).wf(),
        ensures
            final(self).wf(),
            old(self).is_dragging() ==> final(self).mode == Mode::Idle && final(self).link_geometry@
                == final(self).expected_geometry() && final(self).events@ == old(self).events@.push(
                Signal::LinkPositionsChanged,
            ),
            !old(self).is_dragging() ==> final(self).mode == old(self).mode && final(self).events
                == old(self).events && final(self).link_geometry == old(self).link_geometry,
            final(self).same_view(old(self)),
            final(self).same_registries(old(self)),
            final(self).same_selection(old(self)),
            final(self).hovered_link_id == old(self).hovered_link_id,
    {
        if let Mode::Dragging { .. } = self.mode {
            self.mode = Mode::Idle;
            self.regenerate_link_positions();
        }
    }

    /// Per-frame work: while dragging, link geometry follows the drag offset.
    pub fn render_frame(&mut self)
        requires
            old(self).wf(),
        ensures
            final(self).wf(),
            old(self).is_dragging() ==> final(self).link_geometry@ == final(self).expected_geometry()
                && final(self).events@ == old(self).events@.push(Signal::LinkPositionsChanged),
            !old(self).is_dragging() ==> final(self).events == old(self).events
                && final(self).link_geometry == old(self).link_geometry,
            final(self).mode == old(self).mode,
            final(self).same_view(old(self)),
            final(self).same_registries(old(self)),
            final(self).same_selection(old(self)),
            final(self).hovered_link_id == old(self).hovered_link_id,
    {
        if let Mode::Dragging { .. } = self.mode {
            self.regenerate_link_positions();
        }
    }

    /// Tracks the link under the cursor, signalling when it changes.
    pub fn update_hovered_link(&mut self, x: i32, y: i32)
        requires
            old(self).wf(),
        ensures
            final(self).wf(),
            final(self).hovered_link_id == old(self).spec_link_at(x as int, y as int),
            final(self).events@ == if final(self).hovered_link_id != old(self).hovered_link_id {
                old(self).events@.push(Signal::LinkHovered { link_id: final(self).hovered_link_id })
            } else {
                old(self).events@
            },
            final(self).mode == old(self).mode,
            final(self).same_view(old(self)),
            final(self).same_registries(old(self)),
            final(self).same_selection(old(self)),
            final(self).link_geometry == old(self).link_geometry,
    {
        let hovered = self.find_link_at(x, y);
        if hovered != self.hovered_link_id {
            self.hovered_link_id = hovered;
            self.events.push(Signal::LinkHovered { link_id: hovered });
        }
    }

    /// What the pointer leaving the overlay does: a pan, box selection or
    /// link drag in progress is cancelled (a link drag with a cancel signal),
    /// and the hovered link is cleared (signalled if there was one).
    pub open spec fn exit_post(&self, after: &Self, r: InputEventResult) -> bool {
        &&& after.mode == match self.mode {
            Mode::Dragging { .. } => self.mode,
            _ => Mode::Idle,
        }
        &&& after.hovered_link_id == NO_LINK
        &&& after.events@ == {
            let hover = if self.hovered_link_id != NO_LINK {
                self.events@.push(Signal::LinkHovered { link_id: NO_LINK })
            } else {
                self.events@
            };
            if self.is_creating_link() {
                hover.push(Signal::LinkCancelled)
            } else {
                hover
            }
        }
        &&& r == if self.is_box_selecting() || self.is_creating_link() {
            InputEventResult::EventAccepted
        } else {
            InputEventResult::EventIgnored
        }
        &&& after.same_view(self) && after.same_registries(self) && after.same_selection(self)
        &&& after.link_geometry == self.link_geometry
    }

    pub fn handle_mouse_exit(&mut self) -> (r: InputEventResult)
        requires
            old(self).wf(),
        ensures
            final(self).wf(),
            old(self).exit_post(final(self), r),
    {
        let was_box_selecting = matches!(self.mode, Mode::BoxSelecting { .. });
        let was_creating_link = matches!(self.mode, Mode::CreatingLink { .. });
        match self.mode {
            Mode::Dragging { .. } => {},
            _ => {
                self.mode = Mode::Idle;
            },
        }
        if self.hovered_link_id != NO_LINK {
            self.hovered_link_id = NO_LINK;
            self.events.push(Signal::LinkHovered { link_id: NO_LINK });
        }
        if was_box_selecting {
            return InputEventResult::EventAccepted;
        }
        if was_creating_link {
            self.events.push(Signal::LinkCancelled);
            return InputEventResult::EventAccepted;
        }
        InputEventResult::EventIgnored
    }

    /// Escape cancels a link drag in progress.
    fn cancel_link_on_escape(&mut self, key: Key) -> (r: bool)
        requires
            old(self).wf(),
        ensures
            final(self).wf(),
            r == (key == Key::Escape && old(self).is_creating_link()),
            r ==> final(self).mode == Mode::Idle && final(self).events@ == old(self).events@.push(
                Signal::LinkCancelled,
            ),
            !r ==> final(self).mode == old(self).mode && final(self).events == old(self).events,
            final(self).same_view(old(self)),
            final(self).same_registries(old(self)),
            final(self).same_selection(old(self)),
            final(self).link_geometry == old(self).link_geometry,
            final(self).hovered_link_id == old(self).hovered_link_id,
    {
        if key == Key::Escape {
            if let Mode::CreatingLink { .. } = self.mode {
                self.mode = Mode::Idle;
                self.events.push(Signal::LinkCancelled);
                return true;
            }
        }
        false
    }

    /// Key handling before the elements below see the key: Escape cancels a
    /// link drag; Delete and Backspace request deletion of the selection;
    /// Ctrl+N requests a new node.
    pub fn capture_key_event(&mut self, key: Key, ctrl: bool) -> (r: KeyEventResult)
        requires
            old(self).wf(),
        ensures
            final(self).wf(),
            key == Key::Escape && old(self).is_creating_link() ==> final(self).mode == Mode::Idle
                && final(self).events@ == old(self).events@.push(Signal::LinkCancelled) && r
                == KeyEventResult::EventAccepted,
            !(key == Key::Escape && old(self).is_creating_link()) ==> final(self).mode == old(
                self,
            ).mode && if key == Key::Delete || key == Key::Backspace {
                final(self).events@ == old(self).events@.push(Signal::DeleteSelected) && r
                    == KeyEventResult::EventAccepted
            } else if ctrl && (key == Key::Character('n') || key == Key::Character('N')) {
                final(self).events@ == old(self).events@.push(Signal::AddNodeRequested) && r
                    == KeyEventResult::EventAccepted
            } else {
                final(self).events == old(self).events && r == KeyEventResult::EventIgnored
            },
            final(self).same_view(old(self)),
            final(self).same_registries(old(self)),
            final(self).same_selection(old(self)),
            final(self).link_geometry == old(self).link_geometry,
            final(self).hovered_link_id == old(self).hovered_link_id,
    {
        if self.cancel_link_on_escape(key) {
            return KeyEventResult::EventAccepted;
        }
        if key == Key::Delete || key == Key::Backspace {
            self.events.push(Signal::DeleteSelected);
            return KeyEventResult::EventAccepted;
        }
        if ctrl && (key == Key::Character('n') || key == Key::Character('N')) {
            self.events.push(Signal::AddNodeRequested);
            return KeyEventResult::EventAccepted;
        }
        KeyEventResult::EventIgnored
    }

    /// Key handling once the focused overlay receives the key: Escape cancels
    /// a link drag; Delete and Backspace request deletion of the selection.
    pub fn key_event(&mut self, key: Key) -> (r: KeyEventResult)
        requires
            old(self).wf(),
        ensures
            final(self).wf(),
            key == Key::Escape && old(self).is_creating_link() ==> final(self).mode == Mode::Idle
                && final(self).events@ == old(self).events@.push(Signal::LinkCancelled) && r
                == KeyEventResult::EventAccepted,
            !(key == Key::Escape && old(self).is_creating_link()) ==> final(self).mode == old(
                self,
            ).mode && if key == Key::Delete || key == Key::Backspace {
                final(self).events@ == old(self).events@.push(Signal::DeleteSelected) && r
                    == KeyEventResult::EventAccepted
            } else {
                final(self).events == old(self).events && r == KeyEventResult::EventIgnored
            },
            final(self).same_view(old(self)),
            final(self).same_registries(old(self)),
            final(self).same_selection(old(self)),
            final(self).link_geometry == old(self).link_geometry,
            final(self).hovered_link_id == old(self).hovered_link_id,
    {
        if self.cancel_link_on_escape(key) {
            return KeyEventResult::EventAccepted;
        }
        if key == Key::Delete || key == Key::Backspace {
            self.events.push(Signal::DeleteSelected);
            return KeyEventResult::EventAccepted;
        }
        KeyEventResult::EventIgnored
    }

    /// Whether the overlay intercepts an event before the elements below: any
    /// event during a pan, box selection or link drag; middle and right
    /// presses, ctrl+left presses, and wheel events; a plain left press only
    /// where it hits a link and no pin. Hit-testing reads the registries, so
    /// pending reports come first: `filter_with_reports` does both in order.
    pub open spec fn spec_filter(&self, event: MouseEvent, ctrl: bool) -> InputEventFilterResult {
        if self.is_panning() || self.is_creating_link() || self.is_box_selecting() {
            InputEventFilterResult::Intercept
        } else {
            match event {
                MouseEvent::Pressed { position, button } => match button {
                    PointerButton::Middle => InputEventFilterResult::Intercept,
                    PointerButton::Right => InputEventFilterResult::Intercept,
                    PointerButton::Left => if ctrl || (self.spec_pin_at(
                        position.x as int,
                        position.y as int,
                    ) == NO_PIN && self.spec_link_at(position.x as int, position.y as int)
                        != NO_LINK) {
                        InputEventFilterResult::Intercept
                    } else {
                        InputEventFilterResult::ForwardEvent
                    },
                    PointerButton::Other => InputEventFilterResult::ForwardEvent,
                },
                MouseEvent::Wheel { .. } => InputEventFilterResult::Intercept,
                _ => InputEventFilterResult::ForwardEvent,
            }
        }
    }

    pub fn input_event_filter_before_children(&self, event: MouseEvent, ctrl: bool) -> (r:
        InputEventFilterResult)
        requires
            self.wf(),
        ensures
            r == self.spec_filter(event, ctrl),
    {
        match self.mode {
            Mode::Panning { .. } | Mode::CreatingLink { .. } | Mode::BoxSelecting { .. } => {
                return InputEventFilterResult::Intercept;
            },
            _ => {},
        }
        match event {
            MouseEvent::Pressed { position, button } => match button {
                PointerButton::Middle => InputEventFilterResult::Intercept,
                PointerButton::Right => InputEventFilterResult::Intercept,
                PointerButton::Left => {
                    if ctrl {
                        return InputEventFilterResult::Intercept;
                    }
                    if self.find_pin_at(position.x, position.y) == NO_PIN && self.find_link_at(
                        position.x,
                        position.y,
                    ) != NO_LINK {
                        InputEventFilterResult::Intercept
                    } else {
                        InputEventFilterResult::ForwardEvent
                    }
                },
                PointerButton::Other => InputEventFilterResult::ForwardEvent,
            },
            MouseEvent::Wheel { .. } => InputEventFilterResult::Intercept,
            _ => InputEventFilterResult::ForwardEvent,
        }
    }

    /// Processes the pending reports, then decides whether the overlay
    /// intercepts `event`: hit-testing for the decision sees the registries
    /// as the reports left them.
    pub fn filter_with_reports(&mut self, reports: &PendingReports, event: MouseEvent, ctrl: bool) -> (r:
        InputEventFilterResult)
        requires
            old(self).wf(),
        ensures
            final(self).wf(),
            old(self).reports_applied(final(self), reports),
            r == final(self).spec_filter(event, ctrl),
    {
        self.process_pending_reports(reports);
        self.input_event_filter_before_children(event, ctrl)
    }

    /// What one processing pass of `reports` does: pin positions, node
    /// rectangles, links and deleted links applied in order, the last report
    /// of an id winning, then a node click; link geometry recomputed once at
    /// the end when node rectangles or links changed; signals in that order.
    pub open spec fn reports_applied(&self, after: &Self, reports: &PendingReports) -> bool {
        let kept_links = remove_all(self.selected_links@, reports.deleted_links@);
        &&& after.pin_positions@ == apply_all(
            with_report(self.pin_positions@, reports.pin),
            reports.pins@,
        )
        &&& after.node_rects@ == apply_all(
            with_report(self.node_rects@, reports.node_rect),
            reports.node_rects@,
        )
        &&& after.links@ == remove_all(
            apply_all(with_report(self.links@, reports.link), reports.links@),
            reports.deleted_links@,
        )
        &&& match reports.clicked_node {
            Some((id, shift)) => (after.selected_nodes@, after.selected_links@) == after_node_click(
                self.selected_nodes@,
                kept_links,
                id,
                shift,
            ),
            None => after.selected_nodes@ == self.selected_nodes@ && after.selected_links@
                == kept_links,
        }
        &&& after.events@ == self.events@ + click_signals(kept_links, reports.clicked_node)
            + regen_signals(reports)
        &&& needs_regeneration(reports) ==> after.link_geometry@ == after.expected_geometry()
        &&& !needs_regeneration(reports) ==> after.link_geometry == self.link_geometry
        &&& after.mode == self.mode
        &&& after.same_view(self)
        &&& after.hovered_link_id == self.hovered_link_id
    }

    /// Applies one processing pass of reports; see `reports_applied`.
    pub fn process_pending_reports(&mut self, reports: &PendingReports)
        requires
            old(self).wf(),
        ensures
            final(self).wf(),
            old(self).reports_applied(final(self), reports),
    {
        let ghost e0 = self.events@;
        if let Some((id, p)) = reports.pin {
            self.report_pin(id, p);
        }
        self.report_pins_batch(&reports.pins);
        if let Some((id, rect)) = reports.node_rect {
            self.report_node_rect(id, rect);
        }
        self.report_node_rects_batch(&reports.node_rects);
        if let Some((id, link)) = reports.link {
            self.report_link(id, link);
        }
        self.report_links_batch(&reports.links);
        self.report_deleted_links(&reports.deleted_links);
        let needs_regen = reports.node_rect.is_some() || reports.node_rects.len() > 0
            || reports.link.is_some() || reports.links.len() > 0 || reports.deleted_links.len() > 0;
        let ghost kept = self.selected_links@;
        if let Some((id, shift)) = reports.clicked_node {
            self.handle_node_click(id, shift);
        }
        proof {
            assert(self.events@ =~= e0 + click_signals(kept, reports.clicked_node));
        }
        let ghost e2 = self.events@;
        if needs_regen {
            self.regenerate_link_positions();
        }
        proof {
            assert(self.events@ =~= e2 + regen_signals(reports));
        }
    }

    /// A node's rectangle contains the point.
    pub open spec fn on_node(&self, x: int, y: int) -> bool {
        exists|id: i32|
            #![trigger self.node_rects@[id]]
            self.node_rects@.contains_key(id) && self.node_rects@[id].spec_contains(x, y)
    }

    fn point_on_node(&self, x: i32, y: i32) -> (r: bool)
        requires
            self.wf(),
        ensures
            r == self.on_node(x as int, y as int),
    {
        let ghost s = self.node_rects.entries@;
        proof {
            lemma_map_of_entries(s);
        }
        let mut i: usize = 0;
        while i < self.node_rects.len()
            invariant
                self.wf(),
                s == self.node_rects.entries@,
                forall|j: int|
                    0 <= j < s.len() ==> #[trigger] self.node_rects@[s[j].0] == s[j].1
                        && self.node_rects@.contains_key(s[j].0),
                i <= s.len(),
                forall|j: int| 0 <= j < i ==> !(#[trigger] s[j].1).spec_contains(x as int, y as int),
            decreases s.len() - i,
        {
            let (id, rect) = self.node_rects.entry(i);
            if rect.contains(x as i64, y as i64) {
                assert(self.node_rects@[s[i as int].0] == s[i as int].1);
                return true;
            }
            i += 1;
        }
        proof {
            if self.on_node(x as int, y as int) {
                let id = choose|id: i32|
                    #![trigger self.node_rects@[id]]
                    self.node_rects@.contains_key(id) && self.node_rects@[id].spec_contains(
                        x as int,
                        y as int,
                    );
                let j = choose|j: int| 0 <= j < s.len() && s[j].0 == id;
                assert(self.node_rects@[s[j].0] == s[j].1);
            }
        }
        false
    }

    /// Clears both selections, signalling a link selection change if links
    /// were selected and a selection change if anything was.
    fn clear_all_selection(&mut self)
        requires
            old(self).wf(),
        ensures
            final(self).wf(),
            final(self).selected_nodes@.is_empty(),
            final(self).selected_links@.is_empty(),
            final(self).events@ == old(self).events@ + (if !old(self).selected_links@.is_empty() {
                seq![Signal::LinkSelectionChanged]
            } else {
                Seq::empty()
            }) + (if !old(self).selected_nodes@.is_empty() || !old(self).selected_links@.is_empty() {
                seq![Signal::SelectionChanged]
            } else {
                Seq::empty()
            }),
            final(self).mode == old(self).mode,
            final(self).same_view(old(self)),
            final(self).same_registries(old(self)),
            final(self).link_geometry == old(self).link_geometry,
            final(self).hovered_link_id == old(self).hovered_link_id,
    {
        proof {
            lemma_map_of_entries(self.selected_nodes.entries@);
            lemma_map_of_entries(self.selected_links.entries@);
            if self.selected_nodes.entries@.len() > 0 {
                assert(self.selected_nodes@.contains_key(self.selected_nodes.entries@[0].0));
            } else {
                assert(self.selected_nodes@ =~= Map::<i32, ()>::empty());
            }
            if self.selected_links.entries@.len() > 0 {
                assert(self.selected_links@.contains_key(self.selected_links.entries@[0].0));
            } else {
                assert(self.selected_links@ =~= Map::<i32, ()>::empty());
            }
        }
        let had_nodes = self.selected_nodes.len() > 0;
        let had_links = self.selected_links.len() > 0;
        self.selected_nodes.clear();
        self.selected_links.clear();
        if had_links {
            self.events.push(Signal::LinkSelectionChanged);
        }
        if had_nodes || had_links {
            self.events.push(Signal::SelectionChanged);
        }
        proof {
            assert(self.events@ =~= old(self).events@ + (if had_links {
                seq![Signal::LinkSelectionChanged]
            } else {
                Seq::empty()
            }) + (if had_nodes || had_links {
                seq![Signal::SelectionChanged]
            } else {
                Seq::empty()
            }));
        }
    }

    /// Nothing but the signal queue changed, and it only by `added`.
    pub open spec fn unchanged_but(&self, before: &Self, added: Seq<Signal>) -> bool {
        self.same_state(before) && self.events@ == before.events@ + added
    }

    /// What a press at `p` does: middle starts a pan and ctrl+left a box
    /// selection (clearing the link selection), both only from `Idle`; right
    /// requests a context menu; a plain left press on a link, with no pin
    /// under it, is a link click; anything else passes through.
    pub open spec fn pressed_post(
        &self,
        after: &Self,
        p: Point,
        button: PointerButton,
        ctrl: bool,
        shift: bool,
        r: InputEventResult,
    ) -> bool {
        match button {
            PointerButton::Middle => if self.mode == Mode::Idle {
                &&& after.mode == (Mode::Panning {
                    origin: p,
                    origin_pan_x: self.pan_x,
                    origin_pan_y: self.pan_y,
                })
                &&& after.same_view(self) && after.same_registries(self) && after.same_selection(self)
                &&& after.events == self.events && after.link_geometry == self.link_geometry
                &&& after.hovered_link_id == self.hovered_link_id
                &&& r == InputEventResult::GrabMouse
            } else {
                after.unchanged_but(self, Seq::empty()) && r == InputEventResult::EventIgnored
            },
            PointerButton::Right => after.unchanged_but(
                self,
                seq![Signal::ContextMenuRequested { x: p.x, y: p.y }],
            ) && r == InputEventResult::EventAccepted,
            PointerButton::Left => if ctrl {
                if self.mode == Mode::Idle {
                    &&& after.mode == (Mode::BoxSelecting { origin: p, current: p })
                    &&& after.selected_links@.is_empty()
                    &&& after.selected_nodes == self.selected_nodes
                    &&& after.events@ == if self.selected_links@.is_empty() {
                        self.events@
                    } else {
                        self.events@.push(Signal::LinkSelectionChanged)
                    }
                    &&& after.same_view(self) && after.same_registries(self)
                    &&& after.link_geometry == self.link_geometry
                    &&& after.hovered_link_id == self.hovered_link_id
                    &&& r == InputEventResult::GrabMouse
                } else {
                    after.unchanged_but(self, Seq::empty()) && r == InputEventResult::EventIgnored
                }
            } else {
                let link = self.spec_link_at(p.x as int, p.y as int);
                if self.spec_pin_at(p.x as int, p.y as int) == NO_PIN && link != NO_LINK {
                    &&& (after.selected_nodes@, after.selected_links@) == after_link_click(
                        self.selected_nodes@,
                        self.selected_links@,
                        link,
                        shift,
                    )
                    &&& after.events@ == self.events@.push(Signal::LinkSelectionChanged).push(
                        Signal::SelectionChanged,
                    )
                    &&& after.mode == self.mode
                    &&& after.same_view(self) && after.same_registries(self)
                    &&& after.link_geometry == self.link_geometry
                    &&& after.hovered_link_id == self.hovered_link_id
                    &&& r == InputEventResult::EventAccepted
                } else {
                    after.unchanged_but(self, Seq::empty()) && r == InputEventResult::EventIgnored
                }
            },
            PointerButton::Other => after.unchanged_but(self, Seq::empty()) && r
                == InputEventResult::EventIgnored,
        }
    }

    pub fn handle_mouse_pressed(
        &mut self,
        x: i32,
        y: i32,
        button: PointerButton,
        ctrl: bool,
        shift: bool,
    ) -> (r: InputEventResult)
        requires
            old(self).wf(),
        ensures
            final(self).wf(),
            old(self).pressed_post(final(self), Point { x, y }, button, ctrl, shift, r),
    {
        let p = Point { x, y };
        match button {
            PointerButton::Middle => {
                if self.mode == Mode::Idle {
                    self.mode = Mode::Panning {
                        origin: p,
                        origin_pan_x: self.pan_x,
                        origin_pan_y: self.pan_y,
                    };
                    InputEventResult::GrabMouse
                } else {
                    assert(self.events@ =~= old(self).events@ + Seq::empty());
                    InputEventResult::EventIgnored
                }
            },
            PointerButton::Right => {
                self.events.push(Signal::ContextMenuRequested { x, y });
                assert(self.events@ =~= old(self).events@ + seq![
                    Signal::ContextMenuRequested { x, y },
                ]);
                InputEventResult::EventAccepted
            },
            PointerButton::Left => {
                if ctrl {
                    if self.mode == Mode::Idle {
                        self.mode = Mode::BoxSelecting { origin: p, current: p };
                        self.clear_link_selection();
                        InputEventResult::GrabMouse
                    } else {
                        assert(self.events@ =~= old(self).events@ + Seq::empty());
                        InputEventResult::EventIgnored
                    }
                } else {
                    let pin = self.find_pin_at(x, y);
                    let link = self.find_link_at(x, y);
                    if pin == NO_PIN && link != NO_LINK {
                        self.handle_link_click(link, shift);
                        InputEventResult::EventAccepted
                    } else {
                        assert(self.events@ =~= old(self).events@ + Seq::empty());
                        InputEventResult::EventIgnored
                    }
                }
            },
            PointerButton::Other => {
                assert(self.events@ =~= old(self).events@ + Seq::empty());
                InputEventResult::EventIgnored
            },
        }
    }

    /// What a release at `p` does: a middle release ends a pan; a left
    /// release commits a box selection (replacing the node selection with the
    /// nodes overlapping the box), or completes a link drag onto the pin under
    /// `p`, or, on empty background (no pin, link or node under `p`), clears
    /// both selections.
    pub open spec fn released_post(&self, after: &Self, p: Point, button: PointerButton, r:
        InputEventResult) -> bool {
        match button {
            PointerButton::Middle => if self.is_panning() {
                &&& after.mode == Mode::Idle
                &&& after.same_view(self) && after.same_registries(self) && after.same_selection(self)
                &&& after.events == self.events && after.link_geometry == self.link_geometry
                &&& after.hovered_link_id == self.hovered_link_id
                &&& r == InputEventResult::EventAccepted
            } else {
                after.unchanged_but(self, Seq::empty()) && r == InputEventResult::EventIgnored
            },
            PointerButton::Left => match self.mode {
                Mode::BoxSelecting { origin, current } => {
                    &&& after.mode == Mode::Idle
                    &&& after.selected_nodes@ == self.nodes_in_box(origin, current)
                    &&& after.selected_links == self.selected_links
                    &&& after.events@ == self.events@.push(Signal::SelectionChanged)
                    &&& after.same_view(self) && after.same_registries(self)
                    &&& after.link_geometry == self.link_geometry
                    &&& after.hovered_link_id == self.hovered_link_id
                    &&& r == InputEventResult::EventAccepted
                },
                Mode::CreatingLink { start_pin, .. } => {
                    &&& after.mode == Mode::Idle
                    &&& after.events@ == self.events@.push(
                        self.link_outcome(start_pin, self.spec_pin_at(p.x as int, p.y as int)),
                    )
                    &&& after.same_view(self) && after.same_registries(self) && after.same_selection(self)
                    &&& after.link_geometry == self.link_geometry
                    &&& after.hovered_link_id == self.hovered_link_id
                    &&& r == InputEventResult::EventAccepted
                },
                _ => {
                    &&& r == InputEventResult::EventIgnored
                    &&& if self.spec_pin_at(p.x as int, p.y as int) == NO_PIN && self.spec_link_at(
                        p.x as int,
                        p.y as int,
                    ) == NO_LINK && !self.on_node(p.x as int, p.y as int) {
                        &&& after.selected_nodes@.is_empty() && after.selected_links@.is_empty()
                        &&& after.events@ == self.events@ + (if !self.selected_links@.is_empty() {
                            seq![Signal::LinkSelectionChanged]
                        } else {
                            Seq::empty()
                        }) + (if !self.selected_nodes@.is_empty()
                            || !self.selected_links@.is_empty() {
                            seq![Signal::SelectionChanged]
                        } else {
                            Seq::empty()
                        })
                        &&& after.mode == self.mode
                        &&& after.same_view(self) && after.same_registries(self)
                        &&& after.link_geometry == self.link_geometry
                        &&& after.hovered_link_id == self.hovered_link_id
                    } else {
                        after.unchanged_but(self, Seq::empty())
                    }
                },
            },
            _ => after.unchanged_but(self, Seq::empty()) && r == InputEventResult::EventIgnored,
        }
    }

    pub fn handle_mouse_released(&mut self, x: i32, y: i32, button: PointerButton) -> (r:
        InputEventResult)
        requires
            old(self).wf(),
        ensures
            final(self).wf(),
            old(self).released_post(final(self), Point { x, y }, button, r),
    {
        match button {
            PointerButton::Middle => {
                if let Mode::Panning { .. } = self.mode {
                    self.mode = Mode::Idle;
                    return InputEventResult::EventAccepted;
                }
                assert(self.events@ =~= old(self).events@ + Seq::empty());
                InputEventResult::EventIgnored
            },
            PointerButton::Left => {
                match self.mode {
                    Mode::BoxSelecting { origin, current } => {
                        self.select_nodes_in_box(origin, current);
                        self.mode = Mode::Idle;
                        self.events.push(Signal::SelectionChanged);
                        return InputEventResult::EventAccepted;
                    },
                    Mode::CreatingLink { start_pin, .. } => {
                        let end_pin = self.find_pin_at(x, y);
                        self.finish_link(start_pin, end_pin);
                        return InputEventResult::EventAccepted;
                    },
                    _ => {},
                }
                if self.find_pin_at(x, y) == NO_PIN && self.find_link_at(x, y) == NO_LINK
                    && !self.point_on_node(x, y) {
                    self.clear_all_selection();
                } else {
                    assert(self.events@ =~= old(self).events@ + Seq::empty());
                }
                InputEventResult::EventIgnored
            },
            _ => {
                assert(self.events@ =~= old(self).events@ + Seq::empty());
                InputEventResult::EventIgnored
            },
        }
    }

    /// What pointer movement to `p` does: a pan follows the cursor (link
    /// geometry recomputed, viewport change signalled); a box selection or
    /// link drag moves its current corner or end; otherwise the hovered link
    /// is tracked.
    pub open spec fn moved_post(&self, after: &Self, p: Point, r: InputEventResult) -> bool {
        match self.mode {
            Mode::Panning { origin, origin_pan_x, origin_pan_y } => {
                &&& after.pan_x == clamp(
                    origin_pan_x + (p.x - origin.x) * UNITS_PER_PX,
                    -PAN_LIMIT as int,
                    PAN_LIMIT as int,
                )
                &&& after.pan_y == clamp(
                    origin_pan_y + (p.y - origin.y) * UNITS_PER_PX,
                    -PAN_LIMIT as int,
                    PAN_LIMIT as int,
                )
                &&& after.zoom == self.zoom && after.min_zoom == self.min_zoom
                &&& after.max_zoom == self.max_zoom
                &&& after.pin_hit_radius == self.pin_hit_radius
                &&& after.link_hover_distance == self.link_hover_distance
                &&& after.mode == self.mode
                &&& after.same_registries(self) && after.same_selection(self)
                &&& after.link_geometry@ == after.expected_geometry()
                &&& after.events@ == self.events@.push(Signal::LinkPositionsChanged).push(
                    Signal::ViewportChanged,
                )
                &&& after.hovered_link_id == self.hovered_link_id
                &&& r == InputEventResult::GrabMouse
            },
            Mode::BoxSelecting { origin, .. } => {
                &&& after.mode == (Mode::BoxSelecting { origin, current: p })
                &&& after.same_view(self) && after.same_registries(self) && after.same_selection(self)
                &&& after.events == self.events && after.link_geometry == self.link_geometry
                &&& after.hovered_link_id == self.hovered_link_id
                &&& r == InputEventResult::GrabMouse
            },
            Mode::CreatingLink { start_pin, origin, .. } => {
                &&& after.mode == (Mode::CreatingLink { start_pin, origin, current: p })
                &&& after.same_view(self) && after.same_registries(self) && after.same_selection(self)
                &&& after.events == self.events && after.link_geometry == self.link_geometry
                &&& after.hovered_link_id == self.hovered_link_id
                &&& r == InputEventResult::GrabMouse
            },
            _ => {
                &&& after.hovered_link_id == self.spec_link_at(p.x as int, p.y as int)
                &&& after.events@ == if after.hovered_link_id != self.hovered_link_id {
                    self.events@.push(Signal::LinkHovered { link_id: after.hovered_link_id })
                } else {
                    self.events@
                }
                &&& after.mode == self.mode
                &&& after.same_view(self) && after.same_registries(self) && after.same_selection(self)
                &&& after.link_geometry == self.link_geometry
                &&& r == InputEventResult::EventIgnored
            },
        }
    }

    pub fn handle_mouse_moved(&mut self, x: i32, y: i32) -> (r: InputEventResult)
        requires
            old(self).wf(),
        ensures
            final(self).wf(),
            old(self).moved_post(final(self), Point { x, y }, r),
    {
        let p = Point { x, y };
        match self.mode {
            Mode::Panning { origin, origin_pan_x, origin_pan_y } => {
                let nx = origin_pan_x as i128 + (x as i128 - origin.x as i128) * 2000;
                let ny = origin_pan_y as i128 + (y as i128 - origin.y as i128) * 2000;
                let cx = clamp_pan(nx);
                let cy = clamp_pan(ny);
                self.pan_x = cx;
                self.pan_y = cy;
                self.regenerate_link_positions();
                let ghost pre = *self;
                self.events.push(Signal::ViewportChanged);
                proof {
                    self.lemma_geometry_frame(&pre, self.links.entries@);
                }
                InputEventResult::GrabMouse
            },
            Mode::BoxSelecting { origin, .. } => {
                self.mode = Mode::BoxSelecting { origin, current: p };
                InputEventResult::GrabMouse
            },
            Mode::CreatingLink { start_pin, origin, .. } => {
                self.mode = Mode::CreatingLink { start_pin, origin, current: p };
                InputEventResult::GrabMouse
            },
            _ => {
                self.update_hovered_link(x, y);
                InputEventResult::EventIgnored
            },
        }
    }

    /// What a wheel step at (`x`, `y`) does: the zoom moves a tenth up or
    /// down within its bounds; when it changes, the pan keeps the graph point
    /// under the cursor within 1e-3 pixel, link geometry is recomputed and
    /// the viewport change signalled; otherwise nothing changes.
    pub open spec fn wheel_post(&self, after: &Self, x: i32, y: i32, delta_y: i32, r:
        InputEventResult) -> bool {
        &&& after.zoom == wheel_zoom(
            self.zoom as int,
            delta_y as int,
            self.min_zoom as int,
            self.max_zoom as int,
        )
        &&& after.zoom == self.zoom ==> after.unchanged_but(self, Seq::empty()) && r
            == InputEventResult::EventIgnored
        &&& after.zoom != self.zoom ==> {
            &&& r == InputEventResult::EventAccepted
            &&& after.pan_x == zoom_pan(x as int, self.pan_x as int, self.zoom as int, after.zoom as int)
            &&& after.pan_y == zoom_pan(y as int, self.pan_y as int, self.zoom as int, after.zoom as int)
            &&& anchor_kept(x as int, self.pan_x as int, self.zoom as int, after.zoom as int)
            &&& anchor_kept(y as int, self.pan_y as int, self.zoom as int, after.zoom as int)
            &&& after.link_geometry@ == after.expected_geometry()
            &&& after.events@ == self.events@.push(Signal::LinkPositionsChanged).push(
                Signal::ViewportChanged,
            )
            &&& after.min_zoom == self.min_zoom && after.max_zoom == self.max_zoom
            &&& after.pin_hit_radius == self.pin_hit_radius
            &&& after.link_hover_distance == self.link_hover_distance
            &&& after.mode == self.mode
            &&& after.same_registries(self) && after.same_selection(self)
            &&& after.hovered_link_id == self.hovered_link_id
        }
    }

    /// A wheel step zooms around the cursor; see `wheel_post`.
    pub fn handle_mouse_wheel(&mut self, x: i32, y: i32, delta_y: i32) -> (r: InputEventResult)
        requires
            old(self).wf(),
        ensures
            final(self).wf(),
            old(self).wheel_post(final(self), x, y, delta_y, r),
    {
        if self.zoom_at(x, y, delta_y) {
            InputEventResult::EventAccepted
        } else {
            assert(self.events@ =~= old(self).events@ + Seq::empty());
            InputEventResult::EventIgnored
        }
    }

    /// Routes a pointer event to its handler.
    pub fn input_event(&mut self, event: MouseEvent, ctrl: bool, shift: bool) -> (r:
        InputEventResult)
        requires
            old(self).wf(),
        ensures
            final(self).wf(),
            match event {
                MouseEvent::Pressed { position, button } => old(self).pressed_post(
                    final(self),
                    position,
                    button,
                    ctrl,
                    shift,
                    r,
                ),
                MouseEvent::Released { position, button } => old(self).released_post(
                    final(self),
                    position,
                    button,
                    r,
                ),
                MouseEvent::Moved { position } => old(self).moved_post(final(self), position, r),
                MouseEvent::Wheel { position, delta_y } => old(self).wheel_post(
                    final(self),
                    position.x,
                    position.y,
                    delta_y,
                    r,
                ),
                MouseEvent::Exit => old(self).exit_post(final(self), r),
            },
    {
        match event {
            MouseEvent::Pressed { position, button } => self.handle_mouse_pressed(
                position.x,
                position.y,
                button,
                ctrl,
                shift,
            ),
            MouseEvent::Released { position, button } => self.handle_mouse_released(
                position.x,
                position.y,
                button,
            ),
            MouseEvent::Moved { position } => self.handle_mouse_moved(position.x, position.y),
            MouseEvent::Wheel { position, delta_y } => self.handle_mouse_wheel(
                position.x,
                position.y,
                delta_y,
            ),
            MouseEvent::Exit => self.handle_mouse_exit(),
        }
    }

    /// At most one of panning, box selection and link creation is in
    /// progress.
    pub proof fn lemma_modes_exclusive(&self)
        ensures
            !(self.is_panning() && self.is_box_selecting()),
            !(self.is_panning() && self.is_creating_link()),
            !(self.is_box_selecting() && self.is_creating_link()),
    {
    }

    /// A press never enters a mode while another interaction is in progress.
    pub proof fn lemma_press_keeps_active_mode(
        &self,
        after: &Self,
        p: Point,
        button: PointerButton,
        ctrl: bool,
        shift: bool,
        r: InputEventResult,
    )
        requires
            self.pressed_post(after, p, button, ctrl, shift, r),
            self.mode != Mode::Idle,
        ensures
            after.mode == self.mode,
    {
    }

    /// Completing a link drag from either end of a pin pair signals the same
    /// outcome; a created link has its output pin first.
    pub proof fn lemma_link_outcome_symmetric(&self, a: i32, b: i32)
        requires
            a != NO_PIN,
            b != NO_PIN,
        ensures
            self.link_outcome(a, b) == self.link_outcome(b, a),
            self.link_outcome(a, b) matches Signal::LinkCreated { start_pin, end_pin } ==> is_output(
                start_pin,
            ) && !is_output(end_pin) && (start_pin, end_pin) == normalized(a, b),
    {
        crate::pins::lemma_compatible_symmetric(a, b);
        if compatible(a, b) {
            crate::pins::lemma_normalized_either_way(a, b);
        }
    }

    /// A link drag between two pins that a link already joins is dropped.
    pub proof fn lemma_duplicate_link_dropped(&self, a: i32, b: i32)
        requires
            compatible(a, b),
            self.spec_link_exists(normalized(a, b).0, normalized(a, b).1),
        ensures
            self.link_outcome(a, b) == Signal::LinkDropped,
            self.link_outcome(b, a) == Signal::LinkDropped,
    {
        crate::pins::lemma_compatible_symmetric(a, b);
        crate::pins::lemma_normalized_either_way(a, b);
    }

    proof fn lemma_geometry_entries(&self, s: Seq<(i32, LinkRecord)>, id: i32)
        requires
            sorted_ids(s),
        ensures
            forall|k: int|
                0 <= k < self.geometry_of(s).len() && #[trigger] self.geometry_of(s)[k].link_id == id
                    ==> exists|i: int|
                    0 <= i < s.len() && s[i].0 == id && self.spec_link_geometry(s[i].0, s[i].1)
                        == Some(self.geometry_of(s)[k]),
            forall|i: int|
                0 <= i < s.len() && s[i].0 == id && (#[trigger] self.spec_link_geometry(s[i].0, s[i].1)) is Some
                    ==> exists|k: int|
                    0 <= k < self.geometry_of(s).len() && self.geometry_of(s)[k]
                        == self.spec_link_geometry(s[i].0, s[i].1)->0,
        decreases s.len(),
    {
        if s.len() > 0 {
            let rest = s.drop_last();
            assert(sorted_ids(rest));
            self.lemma_geometry_entries(rest, id);
            let g = self.geometry_of(s);
            let gr = self.geometry_of(rest);
            assert forall|k: int| 0 <= k < g.len() && #[trigger] g[k].link_id == id implies exists|i: int|
                0 <= i < s.len() && s[i].0 == id && self.spec_link_geometry(s[i].0, s[i].1) == Some(
                    g[k],
                ) by {
                if k < gr.len() {
                    assert(g[k] == gr[k]);
                    let i = choose|i: int|
                        0 <= i < rest.len() && rest[i].0 == id && self.spec_link_geometry(
                            rest[i].0,
                            rest[i].1,
                        ) == Some(gr[k]);
                    assert(s[i] == rest[i]);
                } else {
                    assert(s[s.len() - 1] == s.last());
                }
            }
            assert forall|i: int|
                0 <= i < s.len() && s[i].0 == id && (#[trigger] self.spec_link_geometry(s[i].0, s[i].1)) is Some
                    implies exists|k: int| 0 <= k < g.len() && g[k] == self.spec_link_geometry(
                    s[i].0,
                    s[i].1,
                )->0 by {
                if i < s.len() - 1 {
                    assert(s[i] == rest[i]);
                    assert(self.spec_link_geometry(rest[i].0, rest[i].1) is Some);
                    let k = choose|k: int|
                        0 <= k < gr.len() && gr[k] == self.spec_link_geometry(rest[i].0, rest[i].1)->0;
                    assert(g[k] == gr[k]);
                } else {
                    assert(g[g.len() - 1] == self.spec_link_geometry(s[i].0, s[i].1)->0);
                }
            }
        }
    }

    /// A registered link has an entry in the link geometry exactly when the
    /// rectangles of both its nodes are known, and that entry is the curve
    /// between its pins; so after reporting both rectangles and regenerating,
    /// the link is drawn, and while one is missing it is not.
    pub proof fn lemma_link_geometry_round_trip(&self, id: i32)
        requires
            self.wf(),
            self.links@.contains_key(id),
        ensures
            ({
                let link = self.links@[id];
                let known = self.node_rects@.contains_key(node_of(link.start_pin_id) as i32)
                    && self.node_rects@.contains_key(node_of(link.end_pin_id) as i32);
                &&& known <==> self.spec_link_geometry(id, link) is Some
                &&& known ==> exists|k: int|
                    0 <= k < self.expected_geometry().len() && self.expected_geometry()[k]
                        == self.spec_link_geometry(id, link)->0 && self.expected_geometry()[k].path
                        == link_curve(
                        self.expected_geometry()[k].start,
                        self.expected_geometry()[k].end,
                        self.zoom as int,
                    )
                &&& !known ==> forall|k: int|
                    0 <= k < self.expected_geometry().len() ==> #[trigger] self.expected_geometry()[k].link_id
                        != id
            }),
    {
        let s = self.links.entries@;
        lemma_map_of_entries(s);
        self.lemma_geometry_entries(s, id);
        let i = choose|i: int| 0 <= i < s.len() && s[i].0 == id;
        assert(self.links@[s[i].0] == s[i].1);
        let link = self.links@[id];
        if self.spec_link_geometry(id, link) is Some {
            assert(self.spec_link_geometry(s[i].0, s[i].1) is Some);
        } else {
            assert forall|k: int|
                0 <= k < self.expected_geometry().len() implies #[trigger] self.expected_geometry()[k].link_id
                != id by {
                if self.expected_geometry()[k].link_id == id {
                    let j = choose|j: int|
                        0 <= j < s.len() && s[j].0 == id && self.spec_link_geometry(s[j].0, s[j].1)
                            == Some(self.expected_geometry()[k]);
                    assert(self.links@[s[j].0] == s[j].1);
                }
            }
        }
    }
}

} // verus!
