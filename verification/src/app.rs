use vstd::prelude::*;
use crate::deserializer::{stores_view, JsonStore, StoreView};
use crate::text::{decimal_text, push_decimal};
use crate::walker::{counter_after, lines_view, nest_depth, viewer_lines, walk_lines};

verus! {

/// The data of one analysis window.
#[derive(Debug)]
pub struct WindowStore {
    pub window_id: String,
    pub save_folder_path: String,
    pub is_window_open: bool,
    pub deseralized_jsons: Option<Vec<JsonStore>>,
}

/// The mathematical view of a [`WindowStore`].
pub struct WindowView {
    pub id: Seq<char>,
    pub path: Seq<char>,
    pub open: bool,
    pub jsons: Option<Seq<StoreView>>,
}

pub open spec fn window_view(w: WindowStore) -> WindowView {
    WindowView {
        id: w.window_id@,
        path: w.save_folder_path@,
        open: w.is_window_open,
        jsons: match w.deseralized_jsons {
            Some(s) => Some(stores_view(s@)),
            None => None,
        },
    }
}

pub open spec fn windows_view(ws: Seq<WindowStore>) -> Seq<WindowView> {
    ws.map_values(|w: WindowStore| window_view(w))
}

/// The state of the save analyser: its label, whether the folder picker
/// was asked for, and the analysis windows, each under its own id.
#[derive(Debug)]
pub struct SotfSaveAnalyserApp {
    label: String,
    is_open_file_clicked: bool,
    window_stores: Vec<WindowStore>,
}

/// The mathematical view of a [`SotfSaveAnalyserApp`]; the windows are in
/// the order in which their ids were first used.
pub struct AppView {
    pub label: Seq<char>,
    pub is_open_file_clicked: bool,
    pub windows: Seq<WindowView>,
}

impl View for SotfSaveAnalyserApp {
    type V = AppView;

    closed spec fn view(&self) -> AppView {
        AppView {
            label: self.label@,
            is_open_file_clicked: self.is_open_file_clicked,
            windows: windows_view(self.window_stores@),
        }
    }
}

/// No two windows share an id.
pub open spec fn ids_unique(ws: Seq<WindowView>) -> bool {
    forall|i: int, j: int| 0 <= i < ws.len() && 0 <= j < ws.len() && i != j ==> ws[i].id != ws[j].id
}

/// Whether some window has the id `id`.
pub open spec fn has_window(ws: Seq<WindowView>, id: Seq<char>) -> bool {
    exists|i: int| 0 <= i < ws.len() && ws[i].id == id
}

/// The position of the window with id `id` (-1 where there is none).
pub open spec fn window_index(ws: Seq<WindowView>, id: Seq<char>) -> int {
    if has_window(ws, id) {
        choose|i: int| 0 <= i < ws.len() && ws[i].id == id
    } else {
        -1
    }
}

/// Puts `w` under its id: in place of the window with that id where there
/// is one, else after the others.
pub open spec fn insert_window(ws: Seq<WindowView>, w: WindowView) -> Seq<WindowView> {
    if has_window(ws, w.id) {
        ws.update(window_index(ws, w.id), w)
    } else {
        ws.push(w)
    }
}

/// The id given to a new window when `n` windows exist.
pub open spec fn window_title(n: nat) -> Seq<char> {
    "Save Analysis #"@ + decimal_text(n)
}

/// What a frame does with a window.
#[derive(PartialEq, Eq, Structural, Debug, Clone, Copy)]
pub enum WindowActionKind {
    /// The window was closed: its data goes at the end of the frame.
    Remove,
    /// Its save has not been read yet: read and deserialize it.
    Deserialize,
    /// It has neither data nor a folder path: warn about it.
    Warn,
    /// Show its store tree.
    Show,
}

/// The action planned for one window in a frame.
#[derive(Debug)]
pub struct WindowAction {
    pub kind: WindowActionKind,
    pub window_id: String,
    pub save_folder_path: String,
}

/// What the frame learnt while carrying out a window's action.
#[derive(Debug)]
pub enum WindowOutcome {
    /// The save was read and deserialized into these stores.
    Deserialized(Vec<JsonStore>),
    /// The window was shown; the flag says whether it is still open.
    Shown(bool),
}

/// An outcome for the window with the given id.
#[derive(Debug)]
pub struct WindowEvent {
    pub window_id: String,
    pub outcome: WindowOutcome,
}

pub enum OutcomeView {
    Deserialized(Seq<StoreView>),
    Shown(bool),
}

pub struct EventView {
    pub id: Seq<char>,
    pub outcome: OutcomeView,
}

pub open spec fn event_view(e: WindowEvent) -> EventView {
    EventView {
        id: e.window_id@,
        outcome: match e.outcome {
            WindowOutcome::Deserialized(s) => OutcomeView::Deserialized(stores_view(s@)),
            WindowOutcome::Shown(b) => OutcomeView::Shown(b),
        },
    }
}

pub open spec fn events_view(es: Seq<WindowEvent>) -> Seq<EventView> {
    es.map_values(|e: WindowEvent| event_view(e))
}

/// The action for a window: remove it if it was closed; else read its save
/// if it has no data but a folder path; else warn if it has no data; else
/// show it.
pub open spec fn planned_kind(w: WindowView) -> WindowActionKind {
    if !w.open {
        WindowActionKind::Remove
    } else if w.jsons is None && w.path.len() > 0 {
        WindowActionKind::Deserialize
    } else if w.jsons is None {
        WindowActionKind::Warn
    } else {
        WindowActionKind::Show
    }
}

/// Applies one event to the windows `cur`, judged by the windows `pre` at
/// the start of the frame: non-empty stores read for a window that was to
/// be deserialized become its data; a shown window whose open flag changed
/// takes the new flag; any other event changes nothing.
pub open spec fn apply_event(pre: Seq<WindowView>, cur: Seq<WindowView>, e: EventView) -> Seq<
    WindowView,
> {
    let i = window_index(cur, e.id);
    if i < 0 {
        cur
    } else {
        match e.outcome {
            OutcomeView::Deserialized(stores) => if planned_kind(pre[i]) == WindowActionKind::Deserialize
                && stores.len() > 0 {
                cur.update(i, WindowView { jsons: Some(stores), ..cur[i] })
            } else {
                cur
            },
            OutcomeView::Shown(open) => if planned_kind(pre[i]) == WindowActionKind::Show && open
                != pre[i].open {
                cur.update(i, WindowView { open: open, ..cur[i] })
            } else {
                cur
            },
        }
    }
}

pub open spec fn apply_events(pre: Seq<WindowView>, evs: Seq<EventView>) -> Seq<WindowView>
    decreases evs.len(),
{
    if evs.len() == 0 {
        pre
    } else {
        apply_event(pre, apply_events(pre, evs.drop_last()), evs.last())
    }
}

/// The windows of `cur` whose counterpart in `pre` is open, in order.
pub open spec fn keep_open(pre: Seq<WindowView>, cur: Seq<WindowView>) -> Seq<WindowView>
    decreases cur.len(),
{
    if cur.len() == 0 || pre.len() == 0 {
        seq![]
    } else {
        let rest = keep_open(pre.drop_last(), cur.drop_last());
        if pre.last().open {
            rest.push(cur.last())
        } else {
            rest
        }
    }
}

/// The windows after a frame: the events applied, then the windows that
/// were closed at the start of the frame removed.
pub open spec fn backend_spec(pre: Seq<WindowView>, evs: Seq<EventView>) -> Seq<WindowView> {
    keep_open(pre, apply_events(pre, evs))
}

/// The windows as a map from id to window.
pub open spec fn window_map(ws: Seq<WindowView>) -> Map<Seq<char>, WindowView> {
    Map::new(|id: Seq<char>| has_window(ws, id), |id: Seq<char>| ws[window_index(ws, id)])
}

/// Law: putting a window under its id acts on the id-to-window map as a
/// map insertion, and keeps ids unique.
pub proof fn lemma_insert_window_map(ws: Seq<WindowView>, w: WindowView)
    requires
        ids_unique(ws),
    ensures
        ids_unique(insert_window(ws, w)),
        window_map(insert_window(ws, w)) == window_map(ws).insert(w.id, w),
{
    let r = insert_window(ws, w);
    if has_window(ws, w.id) {
        let i = window_index(ws, w.id);
        assert(ids_unique(r));
        assert forall|id: Seq<char>| has_window(r, id) == (has_window(ws, id) || id == w.id) by {
            if has_window(ws, id) {
                let k = choose|k: int| 0 <= k < ws.len() && ws[k].id == id;
                assert(r[k].id == id);
            }
            if has_window(r, id) {
                let k = choose|k: int| 0 <= k < r.len() && r[k].id == id;
                assert(ws[k].id == id);
            }
        }
        assert forall|id: Seq<char>| #[trigger] has_window(r, id) implies r[window_index(r, id)]
            == window_map(ws).insert(w.id, w)[id] by {
            let k = window_index(r, id);
            if id != w.id {
                assert(ws[k].id == id);
                assert(window_index(ws, id) == k);
            }
        }
        assert(window_map(r) =~= window_map(ws).insert(w.id, w));
    } else {
        assert(ids_unique(r));
        assert forall|id: Seq<char>| has_window(r, id) == (has_window(ws, id) || id == w.id) by {
            if has_window(ws, id) {
                let k = choose|k: int| 0 <= k < ws.len() && ws[k].id == id;
                assert(r[k].id == id);
            }
            if id == w.id {
                assert(r[ws.len() as int].id == id);
            }
            if has_window(r, id) {
                let k = choose|k: int| 0 <= k < r.len() && r[k].id == id;
                if k < ws.len() {
                    assert(ws[k].id == id);
                }
            }
        }
        assert forall|id: Seq<char>| #[trigger] has_window(r, id) implies r[window_index(r, id)]
            == window_map(ws).insert(w.id, w)[id] by {
            let k = window_index(r, id);
            if id != w.id {
                assert(k < ws.len());
                assert(ws[k].id == id);
                assert(window_index(ws, id) == k);
            }
        }
        assert(window_map(r) =~= window_map(ws).insert(w.id, w));
    }
}

/// The id and folder path of each window, in order.
pub open spec fn window_keys(ws: Seq<WindowView>) -> Seq<(Seq<char>, Seq<char>)> {
    ws.map_values(|w: WindowView| (w.id, w.path))
}

proof fn lemma_apply_events_keys(pre: Seq<WindowView>, evs: Seq<EventView>)
    ensures
        window_keys(apply_events(pre, evs)) == window_keys(pre),
    decreases evs.len(),
{
    if evs.len() > 0 {
        lemma_apply_events_keys(pre, evs.drop_last());
        let cur = apply_events(pre, evs.drop_last());
        assert(window_keys(apply_event(pre, cur, evs.last())) =~= window_keys(cur));
    }
}

proof fn lemma_keep_open_keys(pre: Seq<WindowView>, cur: Seq<WindowView>)
    requires
        window_keys(cur) == window_keys(pre),
    ensures
        window_keys(keep_open(pre, cur)) == window_keys(keep_open(pre, pre)),
    decreases cur.len(),
{
    assert(cur.len() == pre.len()) by {
        assert(window_keys(cur).len() == cur.len());
        assert(window_keys(pre).len() == pre.len());
    }
    if cur.len() > 0 {
        assert forall|k: int| 0 <= k < cur.len() - 1 implies window_keys(cur.drop_last())[k]
            == window_keys(pre.drop_last())[k] by {
            assert(window_keys(cur)[k] == window_keys(pre)[k]);
        }
        assert(window_keys(cur.drop_last()) =~= window_keys(pre.drop_last()));
        lemma_keep_open_keys(pre.drop_last(), cur.drop_last());
        assert(window_keys(cur)[cur.len() - 1] == window_keys(pre)[pre.len() - 1]);
        let rc = keep_open(pre.drop_last(), cur.drop_last());
        let rp = keep_open(pre.drop_last(), pre.drop_last());
        if pre.last().open {
            assert(window_keys(rc.push(cur.last())) =~= window_keys(rc).push((cur.last().id, cur.last().path)));
            assert(window_keys(rp.push(pre.last())) =~= window_keys(rp).push((pre.last().id, pre.last().path)));
        }
        assert(window_keys(keep_open(pre, cur)) =~= window_keys(keep_open(pre, pre)));
    }
}

/// Law: whatever the outcomes of a frame, the windows after it are exactly
/// those that were open when it began, in the same order, with the same
/// ids and folder paths; a window closed during the frame stays until the
/// next one.
pub proof fn lemma_frame_keeps_open_windows(pre: Seq<WindowView>, evs: Seq<EventView>)
    ensures
        window_keys(backend_spec(pre, evs)) == window_keys(keep_open(pre, pre)),
{
    lemma_apply_events_keys(pre, evs);
    assert(apply_events(pre, evs).len() == pre.len()) by {
        assert(window_keys(apply_events(pre, evs)).len() == window_keys(pre).len());
    }
    lemma_keep_open_keys(pre, apply_events(pre, evs));
}

proof fn lemma_keep_open_contains(pre: Seq<WindowView>, cur: Seq<WindowView>, k: int)
    requires
        pre.len() == cur.len(),
        0 <= k < cur.len(),
        pre[k].open,
    ensures
        exists|j: int| 0 <= j < keep_open(pre, cur).len() && #[trigger] keep_open(pre, cur)[j] == cur[k],
    decreases cur.len(),
{
    let rest = keep_open(pre.drop_last(), cur.drop_last());
    if k == cur.len() - 1 {
        assert(keep_open(pre, cur)[rest.len() as int] == cur[k]);
    } else {
        lemma_keep_open_contains(pre.drop_last(), cur.drop_last(), k);
        let j = choose|j: int| 0 <= j < rest.len() && #[trigger] rest[j] == cur.drop_last()[k];
        assert(keep_open(pre, cur)[j] == cur[k]);
    }
}

/// The event that a window's save was read into `stores`.
pub open spec fn deserialized_event(id: Seq<char>, stores: Seq<StoreView>) -> EventView {
    EventView { id: id, outcome: OutcomeView::Deserialized(stores) }
}

/// The event that a window was shown and is now open or not.
pub open spec fn shown_event(id: Seq<char>, open: bool) -> EventView {
    EventView { id: id, outcome: OutcomeView::Shown(open) }
}

/// Law: when a window that was waiting for its save receives non-empty
/// stores in a frame, after the frame that window is still there, with the
/// same id, path and open flag, and its data is exactly those stores, the
/// whole of them.
pub proof fn lemma_deserialized_data_kept(pre: Seq<WindowView>, id: Seq<char>, stores: Seq<StoreView>)
    requires
        ids_unique(pre),
        has_window(pre, id),
        planned_kind(pre[window_index(pre, id)]) == WindowActionKind::Deserialize,
        stores.len() > 0,
    ensures
        exists|j: int|
            0 <= j < backend_spec(pre, seq![deserialized_event(id, stores)]).len()
                && #[trigger] backend_spec(pre, seq![deserialized_event(id, stores)])[j] == (
            WindowView { jsons: Some(stores), ..pre[window_index(pre, id)] }),
{
    let ev = deserialized_event(id, stores);
    let i = window_index(pre, id);
    assert(0 <= i < pre.len() && pre[i].id == id);
    let e = seq![ev].drop_last();
    assert(e =~= Seq::<EventView>::empty());
    assert(apply_events(pre, e) == pre);
    assert(seq![ev].last() == ev);
    let cur = apply_events(pre, seq![ev]);
    assert(cur == apply_event(pre, pre, ev));
    assert(window_index(pre, ev.id) == i);
    assert(cur == pre.update(i, WindowView { jsons: Some(stores), ..pre[i] }));
    lemma_keep_open_contains(pre, cur, i);
    let j = choose|j: int| 0 <= j < keep_open(pre, cur).len() && #[trigger] keep_open(pre, cur)[j] == cur[i];
    assert(backend_spec(pre, seq![ev]) == keep_open(pre, cur));
    assert(backend_spec(pre, seq![ev])[j] == WindowView { jsons: Some(stores), ..pre[i] });
}

/// Law: a shown window whose flag turned to closed in a frame is still
/// there after the frame, with its data, marked closed; it goes only at the
/// next frame.
pub proof fn lemma_closed_window_marked(pre: Seq<WindowView>, id: Seq<char>)
    requires
        ids_unique(pre),
        has_window(pre, id),
        planned_kind(pre[window_index(pre, id)]) == WindowActionKind::Show,
    ensures
        exists|j: int|
            0 <= j < backend_spec(pre, seq![shown_event(id, false)]).len()
                && #[trigger] backend_spec(pre, seq![shown_event(id, false)])[j] == (WindowView {
                open: false,
                ..pre[window_index(pre, id)]
            }),
{
    let ev = shown_event(id, false);
    let i = window_index(pre, id);
    assert(0 <= i < pre.len() && pre[i].id == id);
    let e = seq![ev].drop_last();
    assert(e =~= Seq::<EventView>::empty());
    assert(apply_events(pre, e) == pre);
    assert(seq![ev].last() == ev);
    let cur = apply_events(pre, seq![ev]);
    assert(cur == apply_event(pre, pre, ev));
    assert(window_index(pre, ev.id) == i);
    assert(cur == pre.update(i, WindowView { open: false, ..pre[i] }));
    lemma_keep_open_contains(pre, cur, i);
    let j = choose|j: int| 0 <= j < keep_open(pre, cur).len() && #[trigger] keep_open(pre, cur)[j] == cur[i];
    assert(backend_spec(pre, seq![ev]) == keep_open(pre, cur));
    assert(backend_spec(pre, seq![ev])[j] == WindowView { open: false, ..pre[i] });
}

proof fn lemma_keep_open_unique(pre: Seq<WindowView>, cur: Seq<WindowView>)
    requires
        ids_unique(cur),
    ensures
        ids_unique(keep_open(pre, cur)),
        forall|j: int|
            0 <= j < keep_open(pre, cur).len() ==> exists|k: int|
                0 <= k < cur.len() && #[trigger] keep_open(pre, cur)[j] == cur[k],
    decreases cur.len(),
{
    if cur.len() == 0 || pre.len() == 0 {
    } else {
        let rest = keep_open(pre.drop_last(), cur.drop_last());
        assert(ids_unique(cur.drop_last()));
        lemma_keep_open_unique(pre.drop_last(), cur.drop_last());
        assert forall|j: int| 0 <= j < rest.len() implies #[trigger] rest[j].id != cur.last().id by {
            let k = choose|k: int| 0 <= k < cur.drop_last().len() && rest[j] == cur.drop_last()[k];
            assert(cur[k] == rest[j]);
        }
        if pre.last().open {
            let r = rest.push(cur.last());
            assert forall|j: int| 0 <= j < r.len() implies exists|k: int|
                0 <= k < cur.len() && #[trigger] r[j] == cur[k] by {
                if j < rest.len() {
                    let k = choose|k: int| 0 <= k < cur.drop_last().len() && rest[j] == cur.drop_last()[k];
                    assert(r[j] == cur[k]);
                } else {
                    assert(r[j] == cur[cur.len() - 1]);
                }
            }
        } else {
            assert forall|j: int| 0 <= j < rest.len() implies exists|k: int|
                0 <= k < cur.len() && #[trigger] rest[j] == cur[k] by {
                let k = choose|k: int| 0 <= k < cur.drop_last().len() && rest[j] == cur.drop_last()[k];
                assert(rest[j] == cur[k]);
            }
        }
    }
}

/// The action a frame takes for a window (see [`planned_kind`]).
fn action_kind(w: &WindowStore) -> (k: WindowActionKind)
    ensures
        k == planned_kind(window_view(*w)),
{
    if !w.is_window_open {
        WindowActionKind::Remove
    } else if w.deseralized_jsons.is_none() && !w.save_folder_path.as_str().is_empty() {
        WindowActionKind::Deserialize
    } else if w.deseralized_jsons.is_none() {
        WindowActionKind::Warn
    } else {
        WindowActionKind::Show
    }
}

/// The window a validated pick opens (see [`SotfSaveAnalyserApp::new_save_analyser_window`]).
pub open spec fn new_window(ws: Seq<WindowView>, path: Seq<char>) -> Seq<WindowView> {
    insert_window(ws, WindowView { id: window_title(ws.len()), path: path, open: true, jsons: None })
}

/// The state after the "Open save folder" button: the picker request flips.
pub open spec fn toggle_spec(v: AppView) -> AppView {
    AppView { is_open_file_clicked: !v.is_open_file_clicked, ..v }
}

/// The state after the folder picker ran: a picked folder that passed
/// validation gets a new window, and the picker request is cleared.
pub open spec fn pick_spec(v: AppView, picked: Option<Seq<char>>, is_valid: bool) -> AppView {
    AppView {
        is_open_file_clicked: false,
        windows: match picked {
            Some(p) => if is_valid {
                new_window(v.windows, p)
            } else {
                v.windows
            },
            None => v.windows,
        },
        ..v
    }
}

/// The side panel of one frame: the button flips the picker request where
/// it was pressed; where the request then stands, the picker runs.
pub open spec fn side_panel_spec(
    v: AppView,
    clicked: bool,
    picked: Option<Seq<char>>,
    is_valid: bool,
) -> AppView {
    let after_button = if clicked {
        toggle_spec(v)
    } else {
        v
    };
    if after_button.is_open_file_clicked {
        pick_spec(after_button, picked, is_valid)
    } else {
        after_button
    }
}

/// Law: whatever the state, the button press and the pick's outcome, no
/// picker request outlasts a frame's side panel, and the label is kept.
pub proof fn lemma_picker_request_cleared_each_frame(
    v: AppView,
    clicked: bool,
    picked: Option<Seq<char>>,
    is_valid: bool,
)
    ensures
        !side_panel_spec(v, clicked, picked, is_valid).is_open_file_clicked,
        side_panel_spec(v, clicked, picked, is_valid).label == v.label,
{
}

pub open spec fn path_view(p: Option<String>) -> Option<Seq<char>> {
    match p {
        Some(s) => Some(s@),
        None => None,
    }
}

/// Finds the position of the window with id `id`.
fn find_window(ws: &Vec<WindowStore>, id: &String) -> (r: Option<usize>)
    requires
        ids_unique(windows_view(ws@)),
    ensures
        match r {
            Some(i) => i < ws@.len() && windows_view(ws@)[i as int].id == id@ && window_index(
                windows_view(ws@),
                id@,
            ) == i,
            None => !has_window(windows_view(ws@), id@),
        },
{
    let ghost wv = windows_view(ws@);
    let mut i: usize = 0;
    while i < ws.len()
        invariant
            i <= ws@.len(),
            wv == windows_view(ws@),
            wv.len() == ws@.len(),
            ids_unique(wv),
            forall|k: int| 0 <= k < i ==> wv[k].id != id@,
        decreases ws@.len() - i,
    {
        if ws[i].window_id == *id {
            proof {
                assert(wv[i as int].id == id@);
                assert(has_window(wv, id@));
            }
            return Some(i);
        }
        i = i + 1;
    }
    None
}

/// Puts a new window for the folder `path` into `ws`, named `Save Analysis
/// #n` where `n` is the number of windows.
fn insert_new_window(ws: &mut Vec<WindowStore>, path: String)
    requires
        ids_unique(windows_view(old(ws)@)),
    ensures
        windows_view(final(ws)@) == new_window(windows_view(old(ws)@), path@),
        ids_unique(windows_view(final(ws)@)),
{
    let count: u64 = ws.len() as u64;
    let mut window_id = "Save Analysis #".to_owned();
    push_decimal(&mut window_id, count);
    let found = find_window(ws, &window_id);
    let store = WindowStore {
        window_id: window_id,
        save_folder_path: path,
        is_window_open: true,
        deseralized_jsons: None,
    };
    let ghost new_view = window_view(store);
    let ghost before = ws@;
    match found {
        Some(i) => {
            ws.set(i, store);
            proof {
                assert(windows_view(ws@) =~= windows_view(before).update(i as int, new_view));
            }
        },
        None => {
            ws.push(store);
            proof {
                assert(windows_view(ws@) =~= windows_view(before).push(new_view));
            }
        },
    }
    proof {
        lemma_insert_window_map(windows_view(before), new_view);
    }
}

impl Default for SotfSaveAnalyserApp {
    /// The app at start: labelled `Sons of the Forest Save Analyser`, with
    /// the picker not asked for and no windows.
    fn default() -> (r: Self)
        ensures
            r@ == (AppView {
                label: "Sons of the Forest Save Analyser"@,
                is_open_file_clicked: false,
                windows: Seq::empty(),
            }),
    {
        proof {
            assert(windows_view(Seq::<WindowStore>::empty()) =~= Seq::<WindowView>::empty());
        }
        SotfSaveAnalyserApp {
            label: "Sons of the Forest Save Analyser".to_owned(),
            is_open_file_clicked: false,
            window_stores: Vec::new(),
        }
    }
}

impl SotfSaveAnalyserApp {
    /// No two windows share an id.
    #[verifier::type_invariant]
    spec fn windows_unique(&self) -> bool {
        ids_unique(windows_view(self.window_stores@))
    }

    /// The label of the app.
    pub fn label(&self) -> (r: &String)
        ensures
            r@ == self@.label,
    {
        &self.label
    }

    /// Whether the folder picker has been asked for.
    pub fn is_open_file_clicked(&self) -> (r: bool)
        ensures
            r == self@.is_open_file_clicked,
    {
        self.is_open_file_clicked
    }

    /// The windows, in order; no two share an id.
    pub fn window_stores(&self) -> (r: &Vec<WindowStore>)
        ensures
            windows_view(r@) == self@.windows,
            ids_unique(self@.windows),
    {
        proof {
            use_type_invariant(self);
        }
        &self.window_stores
    }

    /// The lines the viewer shows for `json_stores`: those of
    /// [`crate::walker::recursive_json_walker`], except that the children
    /// of a `VailWorldSim` store are left out (see [`walk_lines`]).
    pub fn recursive_json_viewer(
        &self,
        json_stores: &Vec<JsonStore>,
        indent_char: char,
        indent_counter: &mut u128,
    ) -> (lines: Vec<String>)
        requires
            *old(indent_counter) + nest_depth(stores_view(json_stores@), true) <= u128::MAX,
        ensures
            lines_view(lines@) == walk_lines(
                stores_view(json_stores@),
                indent_char,
                *old(indent_counter) as nat,
                true,
            ),
            *final(indent_counter) == counter_after(*old(indent_counter)),
    {
        viewer_lines(json_stores, indent_char, indent_counter)
    }

    /// The "Open save folder" button was pressed: the picker request flips
    /// (see [`toggle_spec`]).
    pub fn toggle_open_file(&mut self)
        ensures
            final(self)@ == toggle_spec(old(self)@),
            ids_unique(final(self)@.windows),
    {
        proof {
            use_type_invariant(&*self);
        }
        self.is_open_file_clicked = !self.is_open_file_clicked;
    }

    /// The folder picker has run (see [`pick_spec`]): a picked folder that
    /// passed validation gets a new window; the picker request is cleared.
    /// Returns whether the picked folder failed validation, so that the
    /// error is shown.
    pub fn handle_folder_pick(&mut self, picked_path: Option<String>, is_valid: bool) -> (show_error: bool)
        ensures
            show_error == (picked_path is Some && !is_valid),
            final(self)@ == pick_spec(old(self)@, path_view(picked_path), is_valid),
            ids_unique(final(self)@.windows),
    {
        proof {
            use_type_invariant(&*self);
        }
        let mut show_error = false;
        match picked_path {
            Some(p) => {
                if !is_valid {
                    show_error = true;
                } else {
                    self.new_save_analyser_window(p);
                }
            },
            None => {},
        }
        proof {
            use_type_invariant(&*self);
        }
        self.is_open_file_clicked = false;
        show_error
    }

    /// The action of this frame for each window, in window order (see
    /// [`planned_kind`]), with the window's id and folder path.
    pub fn window_actions(&self) -> (r: Vec<WindowAction>)
        ensures
            r@.len() == self@.windows.len(),
            forall|i: int|
                0 <= i < r@.len() ==> {
                    &&& (#[trigger] r@[i]).kind == planned_kind(self@.windows[i])
                    &&& r@[i].window_id@ == self@.windows[i].id
                    &&& r@[i].save_folder_path@ == self@.windows[i].path
                },
    {
        let ghost ws = self@.windows;
        let mut r: Vec<WindowAction> = Vec::new();
        let mut i: usize = 0;
        while i < self.window_stores.len()
            invariant
                i <= self.window_stores@.len(),
                ws == windows_view(self.window_stores@),
                ws.len() == self.window_stores@.len(),
                r@.len() == i,
                forall|k: int|
                    0 <= k < i ==> {
                        &&& (#[trigger] r@[k]).kind == planned_kind(ws[k])
                        &&& r@[k].window_id@ == ws[k].id
                        &&& r@[k].save_folder_path@ == ws[k].path
                    },
            decreases self.window_stores@.len() - i,
        {
            let w = &self.window_stores[i];
            let action = WindowAction {
                kind: action_kind(w),
                window_id: w.window_id.clone(),
                save_folder_path: w.save_folder_path.clone(),
            };
            r.push(action);
            i = i + 1;
        }
        r
    }

    /// Ends a frame: applies the outcomes of the frame's actions in order
    /// (see [`apply_event`]), then drops the windows that were closed when
    /// the frame began.
    pub fn window_backend(&mut self, events: Vec<WindowEvent>)
        ensures
            final(self)@ == (AppView {
                windows: backend_spec(old(self)@.windows, events_view(events@)),
                ..old(self)@
            }),
            ids_unique(final(self)@.windows),
    {
        proof {
            use_type_invariant(&*self);
        }
        let mut ws: Vec<WindowStore> = Vec::new();
        core::mem::swap(&mut ws, &mut self.window_stores);
        let ghost pre = windows_view(ws@);
        let ghost evs = events_view(events@);
        let mut kinds: Vec<WindowActionKind> = Vec::new();
        let mut opens: Vec<bool> = Vec::new();
        let mut i: usize = 0;
        while i < ws.len()
            invariant
                i <= ws@.len(),
                pre == windows_view(ws@),
                pre.len() == ws@.len(),
                kinds@.len() == i,
                opens@.len() == i,
                forall|k: int| 0 <= k < i ==> #[trigger] kinds@[k] == planned_kind(pre[k]),
                forall|k: int| 0 <= k < i ==> #[trigger] opens@[k] == pre[k].open,
            decreases ws@.len() - i,
        {
            let w = &ws[i];
            kinds.push(action_kind(w));
            opens.push(w.is_window_open);
            i = i + 1;
        }
        for e in it: events
            invariant
                it.seq() == events@,
                evs == events_view(events@),
                evs.len() == events@.len(),
                windows_view(ws@) == apply_events(pre, evs.take(it.index())),
                windows_view(ws@).len() == pre.len(),
                ids_unique(pre),
                forall|k: int| 0 <= k < pre.len() ==> #[trigger] windows_view(ws@)[k].id == pre[k].id,
                kinds@.len() == pre.len(),
                opens@.len() == pre.len(),
                forall|k: int| 0 <= k < pre.len() ==> #[trigger] kinds@[k] == planned_kind(pre[k]),
                forall|k: int| 0 <= k < pre.len() ==> #[trigger] opens@[k] == pre[k].open,
        {
            let ghost n = it.index();
            assert(e == events@[n]);
            let ghost cur = windows_view(ws@);
            let ghost ev = evs[n];
            proof {
                assert forall|a: int, b: int| 0 <= a < cur.len() && 0 <= b < cur.len() && a != b
                    implies cur[a].id != cur[b].id by {
                    assert(cur[a].id == pre[a].id);
                    assert(cur[b].id == pre[b].id);
                }
            }
            let WindowEvent { window_id, outcome } = e;
            match find_window(&ws, &window_id) {
                Some(i) => {
                    match outcome {
                        WindowOutcome::Deserialized(stores) => {
                            proof {
                                crate::walker::lemma_stores_view_len(stores@);
                            }
                            if kinds[i] == WindowActionKind::Deserialize && stores.len() > 0 {
                                let ghost before = ws@;
                                let mut w = ws.remove(i);
                                w.deseralized_jsons = Some(stores);
                                ws.insert(i, w);
                                proof {
                                    assert(ws@ =~= before.update(i as int, w));
                                    assert(windows_view(ws@) =~= cur.update(
                                        i as int,
                                        WindowView { jsons: Some(stores_view(stores@)), ..cur[i as int] },
                                    ));
                                }
                            }
                        },
                        WindowOutcome::Shown(open) => {
                            if kinds[i] == WindowActionKind::Show && open != opens[i] {
                                let ghost before = ws@;
                                let mut w = ws.remove(i);
                                w.is_window_open = open;
                                ws.insert(i, w);
                                proof {
                                    assert(ws@ =~= before.update(i as int, w));
                                    assert(windows_view(ws@) =~= cur.update(
                                        i as int,
                                        WindowView { open: open, ..cur[i as int] },
                                    ));
                                }
                            }
                        },
                    }
                },
                None => {},
            }
            proof {
                assert(evs.take(n + 1).drop_last() =~= evs.take(n));
                assert(evs.take(n + 1).last() == ev);
                assert(windows_view(ws@) == apply_event(pre, cur, ev));
            }
        }
        proof {
            assert(evs.take(evs.len() as int) =~= evs);
        }
        let ghost applied = windows_view(ws@);
        let ghost all = ws@;
        let total = ws.len();
        let mut kept: Vec<WindowStore> = Vec::new();
        let mut idx: usize = 0;
        for w in it: ws
            invariant
                it.seq() == all,
                all.len() == total,
                idx == it.index(),
                windows_view(all) == applied,
                applied.len() == pre.len(),
                opens@.len() == pre.len(),
                forall|k: int| 0 <= k < pre.len() ==> #[trigger] opens@[k] == pre[k].open,
                windows_view(kept@) == keep_open(pre.take(it.index()), applied.take(it.index())),
        {
            let ghost n = it.index();
            assert(w == all[n]);
            if opens[idx] {
                kept.push(w);
            }
            proof {
                assert(pre.take(n + 1).drop_last() =~= pre.take(n));
                assert(applied.take(n + 1).drop_last() =~= applied.take(n));
                assert(pre.take(n + 1).last() == pre[n]);
                assert(applied.take(n + 1).last() == applied[n]);
                assert(windows_view(kept@) =~= keep_open(pre.take(n + 1), applied.take(n + 1)));
            }
            idx = idx + 1;
        }
        proof {
            assert(pre.take(pre.len() as int) =~= pre);
            assert(applied.take(applied.len() as int) =~= applied);
            assert(ids_unique(applied)) by {
                assert forall|a: int, b: int| 0 <= a < applied.len() && 0 <= b < applied.len() && a != b
                    implies applied[a].id != applied[b].id by {
                    assert(applied[a].id == pre[a].id);
                    assert(applied[b].id == pre[b].id);
                }
            }
            lemma_keep_open_unique(pre, applied);
        }
        self.window_stores = kept;
    }

    /// Opens a new analysis window for the save folder at `path`, named
    /// `Save Analysis #n` where `n` is the number of windows; a window that
    /// already has that name is replaced (see [`new_window`]).
    pub fn new_save_analyser_window(&mut self, path: String)
        ensures
            final(self)@ == (AppView { windows: new_window(old(self)@.windows, path@), ..old(self)@ }),
            ids_unique(final(self)@.windows),
    {
        proof {
            use_type_invariant(&*self);
        }
        let mut ws: Vec<WindowStore> = Vec::new();
        core::mem::swap(&mut ws, &mut self.window_stores);
        insert_new_window(&mut ws, path);
        self.window_stores = ws;
    }
}

} // verus!
