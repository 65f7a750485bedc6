//! The screen cast portal: sessions and their options, the choice of a source, restore tokens, and
//! the answer that tells an application where its stream is.

use vstd::prelude::*;
use vstd::string::StringExecFns;

use crate::capture::{
    output_named,
    toplevel_identified,
    CaptureTarget,
    DirectCapture,
    DirectCaptureView,
    OutputInfo,
    OutputView,
    ToplevelInfo,
    ToplevelView,
};
use crate::cast::ScreencastThread;
use crate::config::Config;
use crate::portal::PortalResponse;
use crate::search::{lemma_first_index, lemma_is_first_index};
use crate::shell::{
    PickerView,
    SelectionResult,
    SharePickerOptions,
    SharePickerResult,
    ShellError,
    ShinyShell,
};
use crate::text::same_text;

verus! {

/// Who wrote a restore token.
pub const RESTORE_DATA_VENDOR: &'static str = "shiny";

/// The version of the restore tokens.
pub const RESTORE_DATA_VERSION: u32 = 1;

/// What a stream can show.
#[derive(Debug, Clone, Copy, PartialEq, Eq, Structural)]
pub enum SourceType {
    Monitor,
    Window,
    Virtual,
}

impl SourceType {
    /// The bit of a kind of source.
    pub open spec fn bit(self) -> u32 {
        match self {
            SourceType::Monitor => 1,
            SourceType::Window => 2,
            SourceType::Virtual => 4,
        }
    }

    /// The bit of a kind of source.
    pub fn bits(&self) -> (bits: u32)
        ensures
            bits == self.bit(),
    {
        match self {
            SourceType::Monitor => 1,
            SourceType::Window => 2,
            SourceType::Virtual => 4,
        }
    }
}

/// Kinds of sources, a bit for each.
#[derive(Debug, Clone, Copy, PartialEq, Eq, Structural)]
pub struct SourceTypes {
    pub bits: u32,
}

impl SourceTypes {
    /// Whether a kind is among them.
    pub open spec fn holds(self, source: SourceType) -> bool {
        self.bits & source.bit() != 0
    }

    /// Monitors and windows.
    pub open spec fn both() -> SourceTypes {
        SourceTypes { bits: 3 }
    }

    /// Monitors and windows.
    pub fn monitors_and_windows() -> (types: Self)
        ensures
            types == SourceTypes::both(),
    {
        assert(1u32 | 2u32 == 3u32) by (bit_vector);
        SourceTypes { bits: SourceType::Monitor.bits() | SourceType::Window.bits() }
    }

    /// Whether a kind is among them.
    pub fn contains(&self, source: SourceType) -> (found: bool)
        ensures
            found == self.holds(source),
    {
        self.bits & source.bits() != 0
    }
}

/// How a stream shows the pointer.
#[derive(Debug, Clone, Copy, PartialEq, Eq, Structural)]
pub enum CursorMode {
    Hidden,
    Embedded,
    Metadata,
}

impl CursorMode {
    /// The bit of a mode.
    pub open spec fn bit(self) -> u32 {
        match self {
            CursorMode::Hidden => 1,
            CursorMode::Embedded => 2,
            CursorMode::Metadata => 4,
        }
    }

    /// The bit of a mode.
    pub fn bits(&self) -> (bits: u32)
        ensures
            bits == self.bit(),
    {
        match self {
            CursorMode::Hidden => 1,
            CursorMode::Embedded => 2,
            CursorMode::Metadata => 4,
        }
    }
}

/// How long a choice of sources is to last.
#[derive(Debug, Clone, Copy, PartialEq, Eq, Structural)]
pub enum PersistMode {
    DoNot,
    Application,
    Explicit,
}

impl Default for PersistMode {
    fn default() -> (mode: Self)
        ensures
            mode == PersistMode::DoNot,
    {
        PersistMode::DoNot
    }
}

/// What a restore token holds.
#[derive(Debug)]
pub enum RestoreValue {
    Text(String),
    /// Anything but a text.
    Other,
}

/// A restore token: whose it is, of which version, and what it holds.
#[derive(Debug)]
pub struct RestoreData {
    pub vendor: String,
    pub version: u32,
    pub data: RestoreValue,
}

/// What a restore token says. It holds a text or nothing of use.
#[verifier::ext_equal]
pub struct RestoreView {
    pub vendor: Seq<char>,
    pub version: u32,
    pub text: Option<Seq<char>>,
}

impl View for RestoreData {
    type V = RestoreView;

    open spec fn view(&self) -> RestoreView {
        RestoreView {
            vendor: self.vendor@,
            version: self.version,
            text: match self.data {
                RestoreValue::Text(text) => Some(text@),
                RestoreValue::Other => None,
            },
        }
    }
}

/// The view of what may be there.
pub open spec fn restore_view(data: Option<RestoreData>) -> Option<RestoreView> {
    match data {
        Some(data) => Some(data@),
        None => None,
    }
}

/// The source that a restore token stands for.
#[derive(Debug)]
pub enum RestoreTokenPayload {
    Monitor { monitor: String },
    Window { class: String, title: String },
}

/// What a restore token stands for.
pub enum PayloadView {
    Monitor { monitor: Seq<char> },
    Window { class: Seq<char>, title: Seq<char> },
}

impl View for RestoreTokenPayload {
    type V = PayloadView;

    open spec fn view(&self) -> PayloadView {
        match self {
            RestoreTokenPayload::Monitor { monitor } => PayloadView::Monitor { monitor: monitor@ },
            RestoreTokenPayload::Window { class, title } => PayloadView::Window {
                class: class@,
                title: title@,
            },
        }
    }
}

/// The options of a session.
#[derive(Debug)]
pub struct ScreenCastOptions {
    pub source_types: SourceTypes,
    pub cursor_mode: CursorMode,
    pub persist_mode: PersistMode,
    pub restore_data: Option<RestoreData>,
}

/// What a session is asked for.
#[verifier::ext_equal]
pub struct OptionsView {
    pub source_types: SourceTypes,
    pub cursor_mode: CursorMode,
    pub persist_mode: PersistMode,
    pub restore_data: Option<RestoreView>,
}

impl View for ScreenCastOptions {
    type V = OptionsView;

    open spec fn view(&self) -> OptionsView {
        OptionsView {
            source_types: self.source_types,
            cursor_mode: self.cursor_mode,
            persist_mode: self.persist_mode,
            restore_data: restore_view(self.restore_data),
        }
    }
}

impl OptionsView {
    /// The options of a new session.
    pub open spec fn fresh() -> OptionsView {
        OptionsView {
            source_types: SourceTypes::both(),
            cursor_mode: CursorMode::Hidden,
            persist_mode: PersistMode::DoNot,
            restore_data: None,
        }
    }
}

impl Default for ScreenCastOptions {
    /// Any monitor or window, without the pointer and for this time only.
    fn default() -> (options: Self)
        ensures
            options@ == OptionsView::fresh(),
    {
        ScreenCastOptions {
            source_types: SourceTypes::monitors_and_windows(),
            cursor_mode: CursorMode::Hidden,
            persist_mode: PersistMode::DoNot,
            restore_data: None,
        }
    }
}

/// What an application asks for. What it does not say stays as it is.
#[derive(Debug)]
pub struct SelectSourcesOptions {
    pub types: Option<SourceTypes>,
    pub multiple: Option<bool>,
    pub cursor_mode: Option<CursorMode>,
    pub restore_data: Option<RestoreData>,
    pub persist_mode: Option<PersistMode>,
}

/// The mode in which the pointer is really shown: there is no metadata for it.
pub open spec fn supported_mode(mode: CursorMode) -> CursorMode {
    if mode == CursorMode::Metadata {
        CursorMode::Embedded
    } else {
        mode
    }
}

/// The options of a session after an application asked for something.
pub open spec fn with_request(options: OptionsView, request: SelectSourcesOptions) -> OptionsView {
    OptionsView {
        source_types: match request.types {
            Some(types) => types,
            None => options.source_types,
        },
        cursor_mode: match request.cursor_mode {
            Some(mode) => supported_mode(mode),
            None => options.cursor_mode,
        },
        persist_mode: match request.persist_mode {
            Some(mode) => mode,
            None => options.persist_mode,
        },
        restore_data: match request.restore_data {
            Some(data) => Some(data@),
            None => options.restore_data,
        },
    }
}

impl ScreenCastOptions {
    /// Takes up what an application asks for.
    pub fn update(&mut self, request: SelectSourcesOptions)
        ensures
            final(self)@ == with_request(old(self)@, request),
    {
        if let Some(types) = request.types {
            self.source_types = types;
        }
        if let Some(mode) = request.cursor_mode {
            self.cursor_mode = if mode == CursorMode::Metadata {
                CursorMode::Embedded
            } else {
                mode
            };
        }
        if let Some(data) = request.restore_data {
            self.restore_data = Some(data);
        }
        if let Some(mode) = request.persist_mode {
            self.persist_mode = mode;
        }
    }
}

/// Whether the user is offered to keep the choice, if the question comes up at all.
pub open spec fn keep_by_default(options: OptionsView) -> Option<bool> {
    match options.persist_mode {
        PersistMode::DoNot => None,
        PersistMode::Application => Some(true),
        PersistMode::Explicit => Some(options.restore_data is Some),
    }
}

/// Whether the user is offered to keep the choice, if the question comes up at all.
pub fn restore_token_default(options: &ScreenCastOptions) -> (default: Option<bool>)
    ensures
        default == keep_by_default(options@),
{
    match options.persist_mode {
        PersistMode::DoNot => None,
        PersistMode::Application => Some(true),
        PersistMode::Explicit => Some(options.restore_data.is_some()),
    }
}

/// Whether the application gets a restore token.
pub open spec fn token_due(persist_mode: PersistMode, allowed: bool) -> bool {
    persist_mode != PersistMode::DoNot && allowed
}

/// Whether the application gets a restore token: it asked for one, and the user allows it.
pub fn should_return_restore_token(persist_mode: PersistMode, allow_restore_token: bool) -> (due:
    bool)
    ensures
        due == token_due(persist_mode, allow_restore_token),
{
    persist_mode != PersistMode::DoNot && allow_restore_token
}

/// The restore token that holds a text.
pub open spec fn token_of(text: Seq<char>) -> RestoreView {
    RestoreView { vendor: RESTORE_DATA_VENDOR@, version: RESTORE_DATA_VERSION, text: Some(text) }
}

/// The restore token that holds the text of a payload. There is none where the payload could not be
/// written.
pub fn restore_data_from_payload(text: Option<String>) -> (token: Option<RestoreData>)
    ensures
        restore_view(token) == match text {
            Some(text) => Some(token_of(text@)),
            None => None,
        },
{
    match text {
        Some(text) => Some(
            RestoreData {
                vendor: RESTORE_DATA_VENDOR.to_owned(),
                version: RESTORE_DATA_VERSION,
                data: RestoreValue::Text(text),
            },
        ),
        None => None,
    }
}

/// The text in a restore token, if the token is one of ours.
pub open spec fn text_in(token: RestoreView) -> Option<Seq<char>> {
    if token.vendor == RESTORE_DATA_VENDOR@ && token.version == RESTORE_DATA_VERSION {
        token.text
    } else {
        None
    }
}

/// The text in a restore token, if the token is one of ours.
pub fn decode_restore_data(token: &RestoreData) -> (text: Option<String>)
    ensures
        match text {
            Some(t) => text_in(token@) == Some(t@),
            None => text_in(token@) is None,
        },
{
    if !same_text(token.vendor.as_str(), RESTORE_DATA_VENDOR) || token.version
        != RESTORE_DATA_VERSION {
        return None;
    }
    match &token.data {
        RestoreValue::Text(text) => Some(text.clone()),
        RestoreValue::Other => None,
    }
}

/// A source that was chosen.
#[derive(Debug)]
pub struct ChosenSource {
    pub target: CaptureTarget,
    pub source_type: SourceType,
    pub restore_payload: RestoreTokenPayload,
    pub allow_restore_token: bool,
}

/// What was chosen.
#[verifier::ext_equal]
pub struct SourceView {
    pub target: CaptureTarget,
    pub source_type: SourceType,
    pub restore_payload: PayloadView,
    pub allow_restore_token: bool,
}

impl View for ChosenSource {
    type V = SourceView;

    open spec fn view(&self) -> SourceView {
        SourceView {
            target: self.target,
            source_type: self.source_type,
            restore_payload: self.restore_payload@,
            allow_restore_token: self.allow_restore_token,
        }
    }
}

/// The view of what may be chosen.
pub open spec fn source_view(source: Option<ChosenSource>) -> Option<SourceView> {
    match source {
        Some(source) => Some(source@),
        None => None,
    }
}

/// A monitor as a source.
pub open spec fn monitor_source(output: OutputView, allowed: bool) -> SourceView {
    SourceView {
        target: CaptureTarget::Output(output.output),
        source_type: SourceType::Monitor,
        restore_payload: PayloadView::Monitor { monitor: output.name },
        allow_restore_token: allowed,
    }
}

/// A window as a source. The token remembers its class and its title.
pub open spec fn window_source(window: ToplevelView, allowed: bool) -> SourceView {
    SourceView {
        target: CaptureTarget::Toplevel(window.handle),
        source_type: SourceType::Window,
        restore_payload: PayloadView::Window { class: window.app_id, title: window.title },
        allow_restore_token: allowed,
    }
}

/// What a token remembers of a window.
#[derive(Debug, Clone, Copy, PartialEq, Eq, Structural)]
pub enum WindowMark {
    Class,
    Title,
}

/// A mark of a window.
pub open spec fn mark_of(window: ToplevelView, mark: WindowMark) -> Seq<char> {
    match mark {
        WindowMark::Class => window.app_id,
        WindowMark::Title => window.title,
    }
}

/// The windows with a mark, in order.
pub open spec fn marked(
    windows: Seq<ToplevelView>,
    mark: WindowMark,
    text: Seq<char>,
) -> Seq<ToplevelView> {
    windows.filter(|w: ToplevelView| mark_of(w, mark) == text)
}

/// The window that a token remembers: the only one of its class, or else the only one of its class
/// and title.
pub open spec fn remembered_window(
    windows: Seq<ToplevelView>,
    class: Seq<char>,
    title: Seq<char>,
) -> Option<ToplevelView> {
    let same_class = marked(windows, WindowMark::Class, class);
    let same_title = marked(same_class, WindowMark::Title, title);
    if class.len() == 0 {
        None
    } else if same_class.len() == 1 {
        Some(same_class[0])
    } else if same_title.len() == 1 {
        Some(same_title[0])
    } else {
        None
    }
}

/// The source that a token stands for, as far as the session asks for its kind and it is there.
pub open spec fn restored_source(
    capture: DirectCaptureView,
    types: SourceTypes,
    payload: PayloadView,
) -> Option<SourceView> {
    match payload {
        PayloadView::Monitor { monitor } => match output_named(capture.outputs, monitor) {
            Some(output) => if types.holds(SourceType::Monitor) {
                Some(monitor_source(output, true))
            } else {
                None
            },
            None => None,
        },
        PayloadView::Window { class, title } => match remembered_window(
            capture.toplevels,
            class,
            title,
        ) {
            Some(window) => if types.holds(SourceType::Window) {
                Some(window_source(window, true))
            } else {
                None
            },
            None => None,
        },
    }
}

fn copy_toplevel(window: &ToplevelInfo) -> (copy: ToplevelInfo)
    ensures
        copy@ == window@,
{
    ToplevelInfo {
        handle: window.handle,
        app_id: window.app_id.clone(),
        title: window.title.clone(),
        identifier: window.identifier.clone(),
        active: window.active,
    }
}

fn has_mark(window: &ToplevelInfo, mark: WindowMark, text: &str) -> (has: bool)
    ensures
        has == (mark_of(window@, mark) == text@),
{
    match mark {
        WindowMark::Class => same_text(window.app_id.as_str(), text),
        WindowMark::Title => same_text(window.title.as_str(), text),
    }
}

fn collect_marked(windows: &Vec<ToplevelInfo>, mark: WindowMark, text: &str) -> (found: Vec<
    ToplevelInfo,
>)
    ensures
        found@.map_values(|w: ToplevelInfo| w@) == marked(
            windows@.map_values(|w: ToplevelInfo| w@),
            mark,
            text@,
        ),
{
    let ghost views = windows@.map_values(|w: ToplevelInfo| w@);
    let mut found: Vec<ToplevelInfo> = Vec::new();
    let mut i: usize = 0;
    proof {
        reveal(Seq::filter);
    }
    assert(found@.map_values(|w: ToplevelInfo| w@) == marked(views.take(0), mark, text@));
    while i < windows.len()
        invariant
            i <= windows@.len(),
            views == windows@.map_values(|w: ToplevelInfo| w@),
            found@.map_values(|w: ToplevelInfo| w@) == marked(views.take(i as int), mark, text@),
        decreases windows@.len() - i,
    {
        proof {
            reveal(Seq::filter);
        }
        assert(views.take(i + 1).drop_last() == views.take(i as int));
        assert(views.take(i + 1).last() == windows@[i as int]@);
        if has_mark(&windows[i], mark, text) {
            let ghost before = found@;
            let copy: ToplevelInfo = copy_toplevel(&windows[i]);
            found.push(copy);
            assert(found@.map_values(|w: ToplevelInfo| w@) == before.map_values(
                |w: ToplevelInfo| w@,
            ).push(copy@));
        }
        i += 1;
    }
    assert(views.take(i as int) == views);
    found
}

/// Finds the source that a token stands for.
pub fn resolve_restore_payload(
    capture: &DirectCapture,
    source_types: SourceTypes,
    payload: RestoreTokenPayload,
) -> (source: Option<ChosenSource>)
    ensures
        source_view(source) == restored_source(capture@, source_types, payload@),
{
    match payload {
        RestoreTokenPayload::Monitor { monitor } => {
            if !source_types.contains(SourceType::Monitor) {
                return None;
            }
            match capture.find_output(monitor.as_str()) {
                Some(i) => {
                    proof {
                        lemma_first_index(
                            capture@.outputs,
                            |o: OutputView| o.name == monitor@,
                        );
                    }
                    Some(
                        ChosenSource {
                            target: CaptureTarget::Output(capture.outputs[i].output),
                            source_type: SourceType::Monitor,
                            restore_payload: RestoreTokenPayload::Monitor { monitor },
                            allow_restore_token: true,
                        },
                    )
                },
                None => None,
            }
        },
        RestoreTokenPayload::Window { class, title } => {
            if !source_types.contains(SourceType::Window) {
                return None;
            }
            if class.as_str().is_empty() {
                return None;
            }
            let same_class: Vec<ToplevelInfo> = collect_marked(
                &capture.toplevels,
                WindowMark::Class,
                class.as_str(),
            );
            let ghost class_views = same_class@.map_values(|w: ToplevelInfo| w@);
            assert(class_views == marked(capture@.toplevels, WindowMark::Class, class@));
            if same_class.len() == 1 {
                assert(class_views[0] == same_class@[0]@);
                return Some(restored_window(&same_class[0], true));
            }
            let same_title: Vec<ToplevelInfo> = collect_marked(
                &same_class,
                WindowMark::Title,
                title.as_str(),
            );
            let ghost title_views = same_title@.map_values(|w: ToplevelInfo| w@);
            assert(title_views == marked(class_views, WindowMark::Title, title@));
            if same_title.len() == 1 {
                assert(title_views[0] == same_title@[0]@);
                return Some(restored_window(&same_title[0], true));
            }
            None
        },
    }
}

/// A window as a source.
pub fn restored_window(window: &ToplevelInfo, allow_restore_token: bool) -> (source: ChosenSource)
    ensures
        source@ == window_source(window@, allow_restore_token),
{
    ChosenSource {
        target: CaptureTarget::Toplevel(window.handle),
        source_type: SourceType::Window,
        restore_payload: RestoreTokenPayload::Window {
            class: window.app_id.clone(),
            title: window.title.clone(),
        },
        allow_restore_token,
    }
}

/// What an application is told of its stream.
#[derive(Debug)]
pub struct StreamProperties {
    pub position: Option<(i32, i32)>,
    pub size: (i32, i32),
    pub source_type: SourceType,
    pub mapping_id: Option<String>,
    pub pipewire_serial: u64,
}

/// A stream of an application: the number of its node, and its properties.
#[derive(Debug)]
pub struct Stream {
    pub node_id: u32,
    pub properties: StreamProperties,
}

/// What an application gets once its session has started.
#[derive(Debug)]
pub struct StartResult {
    pub streams: Vec<Stream>,
    pub persist_mode: Option<PersistMode>,
    pub restore_data: Option<RestoreData>,
}

/// What an application gets for a new session.
#[derive(Debug)]
pub struct CreateSessionResult {
    pub session_id: String,
}

/// What to do next to start a session.
#[derive(Debug)]
pub enum StartStep {
    /// Answer the request.
    Respond(PortalResponse<StartResult>),
    /// Open a capture connection, and go on with `connected`.
    Connect,
    /// Read the payload in a restore token, and go on with `token_read`.
    ReadToken(String),
    /// Let the user choose, and go on with `picked`.
    AskShell(SharePickerOptions),
    /// Start a stream of the source, and go on with `started`.
    Cast { overlay_cursor: bool, source: ChosenSource },
}

impl StartStep {
    /// The request fails.
    pub open spec fn refuses(self) -> bool {
        self matches StartStep::Respond(response) && response is Other
    }

    /// The user refused.
    pub open spec fn cancels(self) -> bool {
        self matches StartStep::Respond(response) && response is Cancelled
    }

    /// The user is asked.
    pub open spec fn asks(self, options: OptionsView, parent_window: Seq<char>) -> bool {
        self matches StartStep::AskShell(request) && request@ == picker_request(
            options,
            parent_window,
        )
    }

    /// A source is shown, with the pointer where the session asks for it.
    pub open spec fn shows(self, options: OptionsView, shown: SourceView) -> bool {
        self matches StartStep::Cast { overlay_cursor, source } && overlay_cursor == (
        options.cursor_mode == CursorMode::Embedded) && source@ == shown
    }
}

/// What the shell is told when the user is asked for a source.
pub open spec fn picker_request(options: OptionsView, parent_window: Seq<char>) -> PickerView {
    PickerView {
        allow_monitor: Some(options.source_types.holds(SourceType::Monitor)),
        allow_window: Some(options.source_types.holds(SourceType::Window)),
        allow_custom_region: Some(false),
        allow_restore_token_default: keep_by_default(options),
        dialog_parent_window_handle: Some(parent_window),
    }
}

/// The text in the restore token of a session, if it has one of ours.
pub open spec fn token_text(options: OptionsView) -> Option<Seq<char>> {
    match options.restore_data {
        Some(token) => text_in(token),
        None => None,
    }
}

/// The source that the user selected, as far as it is there. Regions of a monitor cannot be shown.
pub open spec fn selected_source(
    capture: DirectCaptureView,
    selection: SelectionResult,
) -> Option<SourceView> {
    match selection {
        SelectionResult::Monitor { allow_restore_token, monitor } => match output_named(
            capture.outputs,
            monitor@,
        ) {
            Some(output) => Some(monitor_source(output, allow_restore_token)),
            None => None,
        },
        SelectionResult::Window { allow_restore_token, stable_id, clazz, title, .. } => {
            match toplevel_identified(capture.toplevels, stable_id@) {
                Some(window) => Some(
                    SourceView {
                        target: CaptureTarget::Toplevel(window.handle),
                        source_type: SourceType::Window,
                        restore_payload: PayloadView::Window { class: clazz@, title: title@ },
                        allow_restore_token,
                    },
                ),
                None => None,
            }
        },
        SelectionResult::Custom { .. } => None,
    }
}

/// Finds the source that the user selected.
pub fn resolve_selection(capture: &DirectCapture, selection: SelectionResult) -> (source: Option<
    ChosenSource,
>)
    ensures
        source_view(source) == selected_source(capture@, selection),
{
    match selection {
        SelectionResult::Monitor { allow_restore_token, monitor } => {
            match capture.find_output(monitor.as_str()) {
                Some(i) => {
                    proof {
                        lemma_first_index(
                            capture@.outputs,
                            |o: OutputView| o.name == monitor@,
                        );
                    }
                    Some(
                        ChosenSource {
                            target: CaptureTarget::Output(capture.outputs[i].output),
                            source_type: SourceType::Monitor,
                            restore_payload: RestoreTokenPayload::Monitor { monitor },
                            allow_restore_token,
                        },
                    )
                },
                None => None,
            }
        },
        SelectionResult::Window { allow_restore_token, stable_id, clazz, title, .. } => {
            match capture.find_toplevel(stable_id.as_str()) {
                Some(i) => Some(
                    ChosenSource {
                        target: CaptureTarget::Toplevel(capture.toplevels[i].handle),
                        source_type: SourceType::Window,
                        restore_payload: RestoreTokenPayload::Window { class: clazz, title },
                        allow_restore_token,
                    },
                ),
                None => None,
            }
        },
        SelectionResult::Custom { .. } => None,
    }
}

/// The screen cast portal.
#[derive(Debug, Clone, Copy, PartialEq, Eq, Structural)]
pub struct ScreenCastPortal {
    pub shell: ShinyShell,
    pub config: Config,
}

impl ScreenCastPortal {
    /// The portal with its settings.
    pub fn new(config: Config) -> (portal: Self)
        ensures
            portal == (ScreenCastPortal { shell: ShinyShell, config }),
    {
        ScreenCastPortal { shell: ShinyShell, config }
    }

    /// What a stream can show: monitors and windows.
    pub fn available_source_types(&self) -> (bits: u32)
        ensures
            bits == 3,
    {
        SourceTypes::monitors_and_windows().bits
    }

    /// How a stream can show the pointer: not at all, or in its frames.
    pub fn available_cursor_modes(&self) -> (bits: u32)
        ensures
            bits == 3,
    {
        assert(1u32 | 2u32 == 3u32) by (bit_vector);
        CursorMode::Hidden.bits() | CursorMode::Embedded.bits()
    }

    /// The version of the interface.
    pub fn version(&self) -> (version: u32)
        ensures
            version == 6,
    {
        6
    }

    /// Answers the request for a session, and says with which options it begins.
    pub fn create_session(&self, session_handle: String) -> (created: (
        PortalResponse<CreateSessionResult>,
        ScreenCastOptions,
    ))
        ensures
            created.0 == PortalResponse::Success(
                CreateSessionResult { session_id: session_handle },
            ),
            created.1@ == OptionsView::fresh(),
    {
        (
            PortalResponse::Success(CreateSessionResult { session_id: session_handle }),
            ScreenCastOptions::default(),
        )
    }

    /// Answers the request to select sources, and says which options the session has then. There is
    /// nothing to select without a session.
    pub fn select_sources(
        &self,
        session: Option<ScreenCastOptions>,
        request: SelectSourcesOptions,
    ) -> (selected: (PortalResponse<()>, Option<ScreenCastOptions>))
        ensures
            match session {
                Some(options) => {
                    &&& selected.0 == PortalResponse::Success(())
                    &&& selected.1 matches Some(updated) && updated@ == with_request(
                        options@,
                        request,
                    )
                },
                None => selected.0 is Other && selected.1 is None,
            },
    {
        match session {
            Some(options) => {
                let mut options: ScreenCastOptions = options;
                options.update(request);
                (PortalResponse::Success(()), Some(options))
            },
            None => (PortalResponse::Other, None),
        }
    }

    /// Begins to start a session.
    pub fn start(&self, session: Option<&ScreenCastOptions>) -> (step: StartStep)
        ensures
            session is None ==> step.refuses(),
            session is Some ==> step is Connect,
    {
        match session {
            Some(_) => StartStep::Connect,
            None => StartStep::Respond(PortalResponse::Other),
        }
    }

    /// Goes on once a capture connection was opened, or could not be.
    pub fn connected(&self, options: &ScreenCastOptions, opened: bool, parent_window: &str) -> (
    step: StartStep)
        ensures
            if !opened {
                step.refuses()
            } else {
                match token_text(options@) {
                    Some(text) => step matches StartStep::ReadToken(t) && t@ == text,
                    None => step.asks(options@, parent_window@),
                }
            },
    {
        if !opened {
            return StartStep::Respond(PortalResponse::Other);
        }
        if let Some(token) = &options.restore_data {
            if let Some(text) = decode_restore_data(token) {
                return StartStep::ReadToken(text);
            }
        }
        self.ask(options, parent_window)
    }

    fn ask(&self, options: &ScreenCastOptions, parent_window: &str) -> (step: StartStep)
        ensures
            step.asks(options@, parent_window@),
    {
        StartStep::AskShell(
            SharePickerOptions {
                allow_monitor: Some(options.source_types.contains(SourceType::Monitor)),
                allow_window: Some(options.source_types.contains(SourceType::Window)),
                allow_custom_region: Some(false),
                allow_restore_token_default: restore_token_default(options),
                dialog_parent_window_handle: Some(parent_window.to_owned()),
            },
        )
    }

    /// Goes on once the payload of the restore token was read, or could not be. Where it no longer
    /// leads to a source, the user is asked.
    pub fn token_read(
        &self,
        options: &ScreenCastOptions,
        capture: &DirectCapture,
        payload: Option<RestoreTokenPayload>,
        parent_window: &str,
    ) -> (step: StartStep)
        ensures
            match payload {
                Some(p) => match restored_source(capture@, options@.source_types, p@) {
                    Some(source) => step.shows(options@, source),
                    None => step.asks(options@, parent_window@),
                },
                None => step.asks(options@, parent_window@),
            },
    {
        if let Some(payload) = payload {
            if let Some(source) = resolve_restore_payload(capture, options.source_types, payload) {
                return StartStep::Cast {
                    overlay_cursor: options.cursor_mode == CursorMode::Embedded,
                    source,
                };
            }
        }
        self.ask(options, parent_window)
    }

    /// Goes on once the user has chosen, or the shell has failed.
    pub fn picked(
        &self,
        options: &ScreenCastOptions,
        capture: &DirectCapture,
        answer: Result<SharePickerResult, ShellError>,
    ) -> (step: StartStep)
        ensures
            match answer {
                Ok(SharePickerResult::Selected { result, .. }) => match selected_source(
                    capture@,
                    result,
                ) {
                    Some(source) => step.shows(options@, source),
                    None => step.refuses(),
                },
                Ok(SharePickerResult::Cancelled { .. }) => step.cancels(),
                Err(_) => step.refuses(),
            },
    {
        match answer {
            Ok(SharePickerResult::Selected { result, .. }) => {
                match resolve_selection(capture, result) {
                    Some(source) => StartStep::Cast {
                        overlay_cursor: options.cursor_mode == CursorMode::Embedded,
                        source,
                    },
                    None => StartStep::Respond(PortalResponse::Other),
                }
            },
            Ok(SharePickerResult::Cancelled { .. }) => StartStep::Respond(
                PortalResponse::Cancelled,
            ),
            Err(_) => StartStep::Respond(PortalResponse::Other),
        }
    }

    /// The answer once the stream was started. `token` is the text of the payload of the source, if
    /// it could be written; it is handed out only where a restore token is due.
    pub fn started(
        &self,
        options: &ScreenCastOptions,
        source: &ChosenSource,
        cast: ScreencastThread,
        token: Option<String>,
    ) -> (response: PortalResponse<StartResult>)
        ensures
            response matches PortalResponse::Success(result) && {
                &&& result.streams@ == seq![
                    Stream {
                        node_id: cast.node_id,
                        properties: StreamProperties {
                            position: None,
                            size: (cast.size.width as i32, cast.size.height as i32),
                            source_type: source@.source_type,
                            mapping_id: None,
                            pipewire_serial: cast.pipewire_serial,
                        },
                    },
                ]
                &&& restore_view(result.restore_data) == match token {
                    Some(text) => if token_due(
                        options@.persist_mode,
                        source@.allow_restore_token,
                    ) {
                        Some(token_of(text@))
                    } else {
                        None
                    },
                    None => None,
                }
                &&& result.persist_mode == if result.restore_data is Some {
                    Some(options@.persist_mode)
                } else {
                    None
                }
            },
    {
        let restore_data: Option<RestoreData> = if should_return_restore_token(
            options.persist_mode,
            source.allow_restore_token,
        ) {
            restore_data_from_payload(token)
        } else {
            None
        };
        let persist_mode: Option<PersistMode> = if restore_data.is_some() {
            Some(options.persist_mode)
        } else {
            None
        };
        let size: crate::geometry::Size = cast.size();
        let stream = Stream {
            node_id: cast.node_id(),
            properties: StreamProperties {
                position: None,
                size: (size.width as i32, size.height as i32),
                source_type: source.source_type,
                mapping_id: None,
                pipewire_serial: cast.pipewire_serial(),
            },
        };
        PortalResponse::Success(StartResult { streams: vec![stream], persist_mode, restore_data })
    }

    /// What an application is told where the stream could not be started.
    pub fn start_failure(&self, reason: &str) -> (text: String)
        ensures
            text@ == "cannot start PipeWire stream: "@ + reason@,
    {
        let mut text: String = "cannot start PipeWire stream: ".to_owned();
        text.append(reason);
        text
    }
}

/// A token gives back the text that was put into it.
pub proof fn law_token_gives_back_its_text(text: Seq<char>)
    ensures
        text_in(token_of(text)) == Some(text),
{
}

/// A token of another vendor or version is ignored.
pub proof fn law_foreign_tokens_are_ignored(token: RestoreView)
    requires
        token.vendor != RESTORE_DATA_VENDOR@ || token.version != RESTORE_DATA_VERSION,
    ensures
        text_in(token) is None,
{
}

/// No token is handed out to an application that did not ask for one, or without the user's leave.
pub proof fn law_tokens_need_leave(persist_mode: PersistMode, allowed: bool)
    ensures
        token_due(persist_mode, allowed) ==> allowed && persist_mode != PersistMode::DoNot,
        !token_due(PersistMode::DoNot, allowed),
        !token_due(persist_mode, false),
{
}

/// To ask for the same thing twice is to ask for it once.
pub proof fn law_requests_are_idempotent(options: OptionsView, request: SelectSourcesOptions)
    ensures
        with_request(with_request(options, request), request) == with_request(options, request),
{
}

/// No session ever has the pointer as metadata, whatever it asks for.
pub proof fn law_pointer_is_never_metadata(options: OptionsView, request: SelectSourcesOptions)
    requires
        options.cursor_mode != CursorMode::Metadata,
    ensures
        OptionsView::fresh().cursor_mode != CursorMode::Metadata,
        with_request(options, request).cursor_mode != CursorMode::Metadata,
{
}

/// A source is restored only where the session asks for its kind.
pub proof fn law_restored_kind_is_asked_for(
    capture: DirectCaptureView,
    types: SourceTypes,
    payload: PayloadView,
)
    ensures
        restored_source(capture, types, payload) matches Some(source) ==> {
            &&& types.holds(source.source_type)
            &&& source.source_type == match payload {
                PayloadView::Monitor { .. } => SourceType::Monitor,
                PayloadView::Window { .. } => SourceType::Window,
            }
        },
{
}

/// A monitor that was selected once is restored from its token as long as it is there.
pub proof fn law_monitor_is_restored(
    capture: DirectCaptureView,
    types: SourceTypes,
    selection: SelectionResult,
)
    requires
        selection is Monitor,
        selection->Monitor_allow_restore_token,
        types.holds(SourceType::Monitor),
        selected_source(capture, selection) is Some,
    ensures
        restored_source(
            capture,
            types,
            selected_source(capture, selection)->0.restore_payload,
        ) == selected_source(capture, selection),
{
    lemma_first_index(
        capture.outputs,
        |o: OutputView| o.name == selection->Monitor_monitor@,
    );
}

/// The only element of a filtered sequence that has just one.
proof fn lemma_filter_only(
    windows: Seq<ToplevelView>,
    wanted: spec_fn(ToplevelView) -> bool,
    k: int,
)
    requires
        0 <= k < windows.len(),
        wanted(windows[k]),
        forall|i: int| 0 <= i < windows.len() && i != k ==> !wanted(#[trigger] windows[i]),
    ensures
        windows.filter(wanted) == seq![windows[k]],
    decreases windows.len(),
{
    reveal(Seq::filter);
    let init = windows.drop_last();
    let last = windows.len() - 1;
    if k == last {
        lemma_filter_none(init, wanted);
    } else {
        assert(!wanted(windows[last]));
        lemma_filter_only(init, wanted, k);
    }
}

proof fn lemma_filter_none(windows: Seq<ToplevelView>, wanted: spec_fn(ToplevelView) -> bool)
    requires
        forall|i: int| 0 <= i < windows.len() ==> !wanted(#[trigger] windows[i]),
    ensures
        windows.filter(wanted) == Seq::<ToplevelView>::empty(),
    decreases windows.len(),
{
    reveal(Seq::filter);
    if windows.len() > 0 {
        assert(!wanted(windows[windows.len() - 1]));
        lemma_filter_none(windows.drop_last(), wanted);
    }
}

/// What a filter lets through was there and is wanted.
proof fn lemma_filter_members(
    windows: Seq<ToplevelView>,
    wanted: spec_fn(ToplevelView) -> bool,
    i: int,
)
    requires
        0 <= i < windows.filter(wanted).len(),
    ensures
        wanted(windows.filter(wanted)[i]),
    decreases windows.len(),
{
    reveal(Seq::filter);
    if windows.len() > 0 {
        let init = windows.drop_last().filter(wanted);
        if i < init.len() {
            lemma_filter_members(windows.drop_last(), wanted, i);
        }
    }
}

/// Two filters in a row let through what a filter for both does.
proof fn lemma_filter_twice(
    windows: Seq<ToplevelView>,
    first: spec_fn(ToplevelView) -> bool,
    second: spec_fn(ToplevelView) -> bool,
)
    ensures
        windows.filter(first).filter(second) == windows.filter(
            |w: ToplevelView| first(w) && second(w),
        ),
    decreases windows.len(),
{
    reveal(Seq::filter);
    if windows.len() > 0 {
        let init = windows.drop_last();
        let last = windows.last();
        lemma_filter_twice(init, first, second);
        if first(last) {
            assert(windows.filter(first) == init.filter(first).push(last));
            assert(init.filter(first).push(last).drop_last() == init.filter(first));
        }
    }
}

/// A window whose class and title no other window has is restored from a token that remembers them.
pub proof fn law_window_is_restored(
    capture: DirectCaptureView,
    types: SourceTypes,
    k: int,
)
    requires
        0 <= k < capture.toplevels.len(),
        capture.toplevels[k].app_id.len() > 0,
        types.holds(SourceType::Window),
        forall|i: int|
            0 <= i < capture.toplevels.len() && i != k ==> !((
            #[trigger] capture.toplevels[i]).app_id == capture.toplevels[k].app_id
                && capture.toplevels[i].title == capture.toplevels[k].title),
    ensures
        restored_source(
            capture,
            types,
            PayloadView::Window {
                class: capture.toplevels[k].app_id,
                title: capture.toplevels[k].title,
            },
        ) == Some(window_source(capture.toplevels[k], true)),
{
    let windows = capture.toplevels;
    let window = windows[k];
    let classed = |w: ToplevelView| mark_of(w, WindowMark::Class) == window.app_id;
    let titled = |w: ToplevelView| mark_of(w, WindowMark::Title) == window.title;
    let both = |w: ToplevelView| classed(w) && titled(w);
    lemma_filter_only(windows, both, k);
    lemma_filter_twice(windows, classed, titled);
    assert(marked(
        marked(windows, WindowMark::Class, window.app_id),
        WindowMark::Title,
        window.title,
    ) == seq![window]);
    let same_class = marked(windows, WindowMark::Class, window.app_id);
    if same_class.len() == 1 {
        let same_title = marked(same_class, WindowMark::Title, window.title);
        assert(same_title == same_class.filter(titled));
        assert(same_title.len() == 1 && same_title[0] == window);
        if !titled(same_class[0]) {
            lemma_filter_none(same_class, titled);
        } else {
            lemma_filter_only(same_class, titled, 0);
            assert(same_title[0] == same_class[0]);
        }
    }
}

/// A source that was restored is restored again from its own token.
pub proof fn law_restored_source_is_restored_again(
    capture: DirectCaptureView,
    types: SourceTypes,
    payload: PayloadView,
)
    requires
        restored_source(capture, types, payload) is Some,
    ensures
        restored_source(
            capture,
            types,
            restored_source(capture, types, payload)->0.restore_payload,
        ) == restored_source(capture, types, payload),
{
    match payload {
        PayloadView::Monitor { monitor } => {
            lemma_first_index(capture.outputs, |o: OutputView| o.name == monitor);
        },
        PayloadView::Window { class, title } => {
            let classed = |w: ToplevelView| mark_of(w, WindowMark::Class) == class;
            let titled = |w: ToplevelView| mark_of(w, WindowMark::Title) == title;
            let same_class = marked(capture.toplevels, WindowMark::Class, class);
            if same_class.len() == 1 {
                lemma_filter_members(capture.toplevels, classed, 0);
            } else {
                let same_title = marked(same_class, WindowMark::Title, title);
                lemma_filter_members(same_class, titled, 0);
                lemma_filter_twice(capture.toplevels, classed, titled);
                lemma_filter_members(
                    capture.toplevels,
                    |w: ToplevelView| classed(w) && titled(w),
                    0,
                );
            }
        },
    }
}

/// Whether two restore tokens say the same.
pub open spec fn same_token(a: RestoreData, b: RestoreData) -> bool {
    &&& a.vendor@ == b.vendor@
    &&& a.version == b.version
    &&& a.data matches RestoreValue::Text(text) ==> (b.data matches RestoreValue::Text(other)
        && other@ == text@)
    &&& a.data is Other ==> b.data is Other
}

/// Whether two sources are the same, and are remembered by the same words.
pub open spec fn same_source(a: ChosenSource, b: ChosenSource) -> bool {
    &&& a.target == b.target
    &&& a.source_type == b.source_type
    &&& a.allow_restore_token == b.allow_restore_token
    &&& a.restore_payload matches RestoreTokenPayload::Monitor { monitor } ==> (b.restore_payload matches RestoreTokenPayload::Monitor {
        monitor: other,
    } && other@ == monitor@)
    &&& a.restore_payload matches RestoreTokenPayload::Window { class, title } ==> (
    b.restore_payload matches RestoreTokenPayload::Window { class: c, title: t } && c@ == class@
        && t@ == title@)
}

/// Whether the options of a session are those of before with what an application asked for.
pub open spec fn took_up(
    before: ScreenCastOptions,
    request: SelectSourcesOptions,
    after: ScreenCastOptions,
) -> bool {
    &&& request.types matches Some(types) ==> after.source_types == types
    &&& request.types is None ==> after.source_types == before.source_types
    &&& request.cursor_mode matches Some(mode) ==> mode != CursorMode::Metadata
        ==> after.cursor_mode == mode
    &&& request.cursor_mode == Some(CursorMode::Metadata) ==> after.cursor_mode
        == CursorMode::Embedded
    &&& request.cursor_mode is None ==> after.cursor_mode == before.cursor_mode
    &&& request.persist_mode matches Some(mode) ==> after.persist_mode == mode
    &&& request.persist_mode is None ==> after.persist_mode == before.persist_mode
    &&& request.restore_data matches Some(data) ==> (after.restore_data matches Some(token)
        && same_token(data, token))
    &&& request.restore_data is None ==> (after.restore_data is None <==> before.restore_data is None)
    &&& request.restore_data is None ==> (before.restore_data matches Some(data) ==> (
    after.restore_data matches Some(token) && same_token(data, token)))
}

/// Each option that an application asks for is taken up, whatever else it asks for, and each that
/// it does not ask for stays as it is.
pub proof fn law_each_option_is_taken_up(
    options: &mut ScreenCastOptions,
    request: SelectSourcesOptions,
)
    requires
        call_ensures(ScreenCastOptions::update, (options, request), ()),
    ensures
        took_up(*old(options), request, *final(options)),
{
}

/// To select sources is to take up each option in the session; without a session it fails.
pub proof fn law_selecting_takes_up_each_option(
    portal: ScreenCastPortal,
    session: Option<ScreenCastOptions>,
    request: SelectSourcesOptions,
    selected: (PortalResponse<()>, Option<ScreenCastOptions>),
)
    requires
        call_ensures(ScreenCastPortal::select_sources, (&portal, session, request), selected),
    ensures
        session matches Some(options) ==> (selected.0 is Success && (selected.1 matches Some(updated)
            && took_up(options, request, updated))),
        session is None ==> selected.0 is Other && selected.1 is None,
{
}

/// A new session asks for monitors and windows, without the pointer, and remembers nothing.
pub proof fn law_new_sessions_ask_for_little(
    portal: ScreenCastPortal,
    session_handle: String,
    created: (PortalResponse<CreateSessionResult>, ScreenCastOptions),
)
    requires
        call_ensures(ScreenCastPortal::create_session, (&portal, session_handle), created),
    ensures
        created.0 matches PortalResponse::Success(result) && result.session_id == session_handle,
        created.1.source_types.bits == 3,
        created.1.cursor_mode == CursorMode::Hidden,
        created.1.persist_mode == PersistMode::DoNot,
        created.1.restore_data is None,
{
}

/// Monitors are the first bit of the kinds of sources, windows the second and virtual sources the
/// third.
pub proof fn law_kinds_are_bits(types: SourceTypes, source: SourceType, found: bool)
    requires
        call_ensures(SourceTypes::contains, (&types, source), found),
    ensures
        source == SourceType::Monitor ==> found == (types.bits & 1 != 0),
        source == SourceType::Window ==> found == (types.bits & 2 != 0),
        source == SourceType::Virtual ==> found == (types.bits & 4 != 0),
{
}

/// Whether the shell is asked for what the session asks for: monitors where it asks for monitors,
/// windows where it asks for windows, and never a region. To keep the choice is offered to an
/// application that asked for it, and is the default unless it asks for leave each time and has
/// none yet.
pub open spec fn asks_for_session(
    request: SharePickerOptions,
    options: ScreenCastOptions,
    parent_window: Seq<char>,
) -> bool {
    &&& request.allow_monitor == Some(options.source_types.bits & 1 != 0)
    &&& request.allow_window == Some(options.source_types.bits & 2 != 0)
    &&& request.allow_custom_region == Some(false)
    &&& request.dialog_parent_window_handle matches Some(handle) && handle@ == parent_window
    &&& options.persist_mode == PersistMode::DoNot <==> request.allow_restore_token_default is None
    &&& options.persist_mode == PersistMode::Application ==> request.allow_restore_token_default
        == Some(true)
    &&& options.persist_mode == PersistMode::Explicit ==> request.allow_restore_token_default
        == Some(options.restore_data is Some)
}

/// Whether a token is one of ours and holds a text.
pub open spec fn is_own_token(token: RestoreData) -> bool {
    token.vendor@ == "shiny"@ && token.version == 1 && token.data is Text
}

/// Once the connection is open, a token of ours is read, and the user is asked where there is none;
/// without a connection the request fails.
pub proof fn law_connecting_leads_to_token_or_user(
    portal: ScreenCastPortal,
    options: ScreenCastOptions,
    opened: bool,
    parent_window: &str,
    step: StartStep,
)
    requires
        call_ensures(ScreenCastPortal::connected, (&portal, &options, opened, parent_window), step),
    ensures
        !opened ==> (step matches StartStep::Respond(response) && response is Other),
        opened && (options.restore_data matches Some(token) && is_own_token(token)) ==> (
        step matches StartStep::ReadToken(text) && text@ == options.restore_data->0.data->Text_0@),
        opened && !(options.restore_data matches Some(token) && is_own_token(token)) ==> (
        step matches StartStep::AskShell(request) && asks_for_session(
            request,
            options,
            parent_window@,
        )),
{
}

/// A session that is there is connected first; one that is not fails.
pub proof fn law_starting_needs_a_session(
    portal: ScreenCastPortal,
    session: Option<&ScreenCastOptions>,
    step: StartStep,
)
    requires
        call_ensures(ScreenCastPortal::start, (&portal, session), step),
    ensures
        session is Some <==> step is Connect,
        session is None ==> (step matches StartStep::Respond(response) && response is Other),
{
}

/// A payload that leads to a source starts it at once, with the pointer exactly where it is to be
/// embedded. Otherwise the user is asked.
pub proof fn law_tokens_lead_to_their_source(
    portal: ScreenCastPortal,
    options: ScreenCastOptions,
    capture: DirectCapture,
    payload: Option<RestoreTokenPayload>,
    parent_window: &str,
    found: Option<ChosenSource>,
    step: StartStep,
)
    requires
        call_ensures(
            ScreenCastPortal::token_read,
            (&portal, &options, &capture, payload, parent_window),
            step,
        ),
        payload is Some ==> call_ensures(
            resolve_restore_payload,
            (&capture, options.source_types, payload->0),
            found,
        ),
    ensures
        payload is Some && found is Some ==> (step matches StartStep::Cast {
            overlay_cursor,
            source,
        } && same_source(source, found->0) && overlay_cursor == (options.cursor_mode
            == CursorMode::Embedded)),
        payload is None || found is None ==> (step matches StartStep::AskShell(request)
            && asks_for_session(request, options, parent_window@)),
{
}

/// A source that the user selected is started, with the pointer exactly where it is to be embedded;
/// a refusal is answered as such, and everything else fails.
pub proof fn law_selections_are_started(
    portal: ScreenCastPortal,
    options: ScreenCastOptions,
    capture: DirectCapture,
    answer: Result<SharePickerResult, ShellError>,
    found: Option<ChosenSource>,
    step: StartStep,
)
    requires
        call_ensures(ScreenCastPortal::picked, (&portal, &options, &capture, answer), step),
        answer matches Ok(SharePickerResult::Selected { result, .. }) ==> call_ensures(
            resolve_selection,
            (&capture, result),
            found,
        ),
    ensures
        answer is Err ==> (step matches StartStep::Respond(response) && response is Other),
        answer matches Ok(picked) && picked is Cancelled ==> (step matches StartStep::Respond(
            response,
        ) && response is Cancelled),
        answer matches Ok(picked) && picked is Selected && found is None ==> (
        step matches StartStep::Respond(response) && response is Other),
        answer matches Ok(picked) && picked is Selected && found is Some ==> (
        step matches StartStep::Cast { overlay_cursor, source } && same_source(source, found->0)
            && overlay_cursor == (options.cursor_mode == CursorMode::Embedded)),
{
}

/// Whether an output is the first of a name.
pub open spec fn is_first_named(outputs: Seq<OutputInfo>, i: int, name: Seq<char>) -> bool {
    &&& 0 <= i < outputs.len()
    &&& outputs[i].name@ == name
    &&& forall|j: int| 0 <= j < i ==> (#[trigger] outputs[j]).name@ != name
}

/// Whether a window is the first of an identifier.
pub open spec fn is_first_identified(windows: Seq<ToplevelInfo>, i: int, id: Seq<char>) -> bool {
    &&& 0 <= i < windows.len()
    &&& windows[i].identifier@ == id
    &&& forall|j: int| 0 <= j < i ==> (#[trigger] windows[j]).identifier@ != id
}

proof fn lemma_named(capture: DirectCapture, name: Seq<char>, i: int)
    ensures
        is_first_named(capture.outputs@, i, name) ==> output_named(capture@.outputs, name) == Some(
            capture.outputs@[i]@,
        ),
        (forall|j: int| 0 <= j < capture.outputs@.len() ==> (#[trigger] capture.outputs@[j]).name@
            != name) ==> output_named(capture@.outputs, name) is None,
{
    let wanted = |o: OutputView| o.name == name;
    if is_first_named(capture.outputs@, i, name) {
        assert(capture@.outputs[i] == capture.outputs@[i]@);
        assert forall|j: int| 0 <= j < i implies !wanted(#[trigger] capture@.outputs[j]) by {
            assert(capture@.outputs[j] == capture.outputs@[j]@);
        }
        lemma_is_first_index(capture@.outputs, wanted, i);
    }
    if forall|j: int| 0 <= j < capture.outputs@.len() ==> (#[trigger] capture.outputs@[j]).name@
        != name {
        let n = capture.outputs@.len() as int;
        assert forall|j: int| 0 <= j < n implies !wanted(#[trigger] capture@.outputs[j]) by {
            assert(capture@.outputs[j] == capture.outputs@[j]@);
        }
        lemma_is_first_index(capture@.outputs, wanted, n);
    }
}

proof fn lemma_identified(capture: DirectCapture, id: Seq<char>, i: int)
    ensures
        is_first_identified(capture.toplevels@, i, id) ==> toplevel_identified(
            capture@.toplevels,
            id,
        ) == Some(capture.toplevels@[i]@),
        (forall|j: int|
            0 <= j < capture.toplevels@.len() ==> (#[trigger] capture.toplevels@[j]).identifier@
                != id) ==> toplevel_identified(capture@.toplevels, id) is None,
{
    let wanted = |t: ToplevelView| t.identifier == id;
    if is_first_identified(capture.toplevels@, i, id) {
        assert(capture@.toplevels[i] == capture.toplevels@[i]@);
        assert forall|j: int| 0 <= j < i implies !wanted(#[trigger] capture@.toplevels[j]) by {
            assert(capture@.toplevels[j] == capture.toplevels@[j]@);
        }
        lemma_is_first_index(capture@.toplevels, wanted, i);
    }
    if forall|j: int|
        0 <= j < capture.toplevels@.len() ==> (#[trigger] capture.toplevels@[j]).identifier@ != id {
        let n = capture.toplevels@.len() as int;
        assert forall|j: int| 0 <= j < n implies !wanted(#[trigger] capture@.toplevels[j]) by {
            assert(capture@.toplevels[j] == capture.toplevels@[j]@);
        }
        lemma_is_first_index(capture@.toplevels, wanted, n);
    }
}

/// A monitor that the user selected is the first output of its name, under the leave that the user
/// gave, and is remembered by the name. There is none where no output has the name.
pub proof fn law_selected_monitor_is_found(
    capture: DirectCapture,
    allow_restore_token: bool,
    monitor: String,
    i: int,
    source: Option<ChosenSource>,
)
    requires
        call_ensures(
            resolve_selection,
            (&capture, SelectionResult::Monitor { allow_restore_token, monitor }),
            source,
        ),
    ensures
        is_first_named(capture.outputs@, i, monitor@) ==> (source matches Some(s) && s.target
            == CaptureTarget::Output(capture.outputs@[i].output) && s.source_type
            == SourceType::Monitor && s.allow_restore_token == allow_restore_token && (
        s.restore_payload matches RestoreTokenPayload::Monitor { monitor: name } && name@
            == monitor@)),
        (forall|j: int| 0 <= j < capture.outputs@.len() ==> (#[trigger] capture.outputs@[j]).name@
            != monitor@) ==> source is None,
{
    lemma_named(capture, monitor@, i);
}

/// A window that the user selected is the first of its identifier, under the leave that the user
/// gave, and is remembered by the class and the title that the shell said. There is none where no
/// window has the identifier.
pub proof fn law_selected_window_is_found(
    capture: DirectCapture,
    allow_restore_token: bool,
    window_address: String,
    stable_id: String,
    clazz: String,
    title: String,
    i: int,
    source: Option<ChosenSource>,
)
    requires
        call_ensures(
            resolve_selection,
            (
                &capture,
                SelectionResult::Window {
                    allow_restore_token,
                    window_address,
                    stable_id,
                    clazz,
                    title,
                },
            ),
            source,
        ),
    ensures
        is_first_identified(capture.toplevels@, i, stable_id@) ==> (source matches Some(s)
            && s.target == CaptureTarget::Toplevel(capture.toplevels@[i].handle) && s.source_type
            == SourceType::Window && s.allow_restore_token == allow_restore_token && (
        s.restore_payload matches RestoreTokenPayload::Window { class: c, title: t } && c@
            == clazz@ && t@ == title@)),
        (forall|j: int|
            0 <= j < capture.toplevels@.len() ==> (#[trigger] capture.toplevels@[j]).identifier@
                != stable_id@) ==> source is None,
{
    lemma_identified(capture, stable_id@, i);
}

/// A region cannot be shown.
pub proof fn law_selected_regions_are_refused(
    capture: DirectCapture,
    selection: SelectionResult,
    source: Option<ChosenSource>,
)
    requires
        call_ensures(resolve_selection, (&capture, selection), source),
        selection is Custom,
    ensures
        source is None,
{
}

/// A remembered monitor is the first output of its name, where the session asks for monitors, and
/// it stays remembered. There is none where the session does not, or no output has the name.
pub proof fn law_remembered_monitor_is_found(
    capture: DirectCapture,
    types: SourceTypes,
    monitor: String,
    i: int,
    source: Option<ChosenSource>,
)
    requires
        call_ensures(
            resolve_restore_payload,
            (&capture, types, RestoreTokenPayload::Monitor { monitor }),
            source,
        ),
    ensures
        types.bits & 1 != 0 && is_first_named(capture.outputs@, i, monitor@) ==> (
        source matches Some(s) && s.target == CaptureTarget::Output(capture.outputs@[i].output)
            && s.source_type == SourceType::Monitor && s.allow_restore_token && (
        s.restore_payload matches RestoreTokenPayload::Monitor { monitor: name } && name@
            == monitor@)),
        (forall|j: int| 0 <= j < capture.outputs@.len() ==> (#[trigger] capture.outputs@[j]).name@
            != monitor@) ==> source is None,
        types.bits & 1 == 0 ==> source is None,
{
    lemma_named(capture, monitor@, i);
    if is_first_named(capture.outputs@, i, monitor@) {
        assert(capture@.outputs[i] == capture.outputs@[i]@);
    }
}

/// Whether a window has a class.
pub open spec fn is_classed(window: ToplevelInfo, class: Seq<char>) -> bool {
    window.app_id@ == class
}

/// Whether a window has a class and a title.
pub open spec fn is_classed_and_titled(
    window: ToplevelInfo,
    class: Seq<char>,
    title: Seq<char>,
) -> bool {
    window.app_id@ == class && window.title@ == title
}

/// Whether a source is a window under its own class and title, with leave to be remembered.
pub open spec fn is_window(source: ChosenSource, window: ToplevelInfo) -> bool {
    &&& source.target == CaptureTarget::Toplevel(window.handle)
    &&& source.source_type == SourceType::Window
    &&& source.allow_restore_token
    &&& source.restore_payload matches RestoreTokenPayload::Window { class, title } && class@
        == window.app_id@ && title@ == window.title@
}

proof fn lemma_filter_some(windows: Seq<ToplevelView>, wanted: spec_fn(ToplevelView) -> bool, i: int)
    requires
        0 <= i < windows.len(),
        wanted(windows[i]),
    ensures
        windows.filter(wanted).len() >= 1,
    decreases windows.len(),
{
    reveal(Seq::filter);
    if i < windows.len() - 1 {
        lemma_filter_some(windows.drop_last(), wanted, i);
    }
}

proof fn lemma_filter_two(
    windows: Seq<ToplevelView>,
    wanted: spec_fn(ToplevelView) -> bool,
    i: int,
    j: int,
)
    requires
        0 <= i < j < windows.len(),
        wanted(windows[i]),
        wanted(windows[j]),
    ensures
        windows.filter(wanted).len() >= 2,
    decreases windows.len(),
{
    reveal(Seq::filter);
    if j < windows.len() - 1 {
        lemma_filter_two(windows.drop_last(), wanted, i, j);
    } else {
        lemma_filter_some(windows.drop_last(), wanted, i);
    }
}

/// A remembered window is the only one of its class, whatever its title is now, or else the only
/// one of its class and title.
pub proof fn law_remembered_window_is_found(
    capture: DirectCapture,
    types: SourceTypes,
    class: String,
    title: String,
    k: int,
    source: Option<ChosenSource>,
)
    requires
        call_ensures(
            resolve_restore_payload,
            (&capture, types, RestoreTokenPayload::Window { class, title }),
            source,
        ),
        types.bits & 2 != 0,
        class@.len() > 0,
        0 <= k < capture.toplevels@.len(),
        ({
            ||| is_classed(capture.toplevels@[k], class@) && forall|j: int|
                0 <= j < capture.toplevels@.len() && j != k ==> !is_classed(
                    #[trigger] capture.toplevels@[j],
                    class@,
                )
            ||| is_classed_and_titled(capture.toplevels@[k], class@, title@) && forall|j: int|
                0 <= j < capture.toplevels@.len() && j != k ==> !is_classed_and_titled(
                    #[trigger] capture.toplevels@[j],
                    class@,
                    title@,
                )
        }),
    ensures
        source matches Some(s) && is_window(s, capture.toplevels@[k]),
{
    let windows = capture@.toplevels;
    let classed = |w: ToplevelView| mark_of(w, WindowMark::Class) == class@;
    let titled = |w: ToplevelView| mark_of(w, WindowMark::Title) == title@;
    let both = |w: ToplevelView| classed(w) && titled(w);
    assert(windows[k] == capture.toplevels@[k]@);
    assert forall|j: int| 0 <= j < windows.len() implies #[trigger] windows[j]
        == capture.toplevels@[j]@ by {}
    if is_classed(capture.toplevels@[k], class@) && forall|j: int|
        0 <= j < capture.toplevels@.len() && j != k ==> !is_classed(
            #[trigger] capture.toplevels@[j],
            class@,
        ) {
        assert forall|j: int| 0 <= j < windows.len() && j != k implies !classed(
            #[trigger] windows[j],
        ) by {
            assert(windows[j] == capture.toplevels@[j]@);
        }
        lemma_filter_only(windows, classed, k);
    } else {
        assert forall|j: int| 0 <= j < windows.len() && j != k implies !both(
            #[trigger] windows[j],
        ) by {
            assert(windows[j] == capture.toplevels@[j]@);
        }
        lemma_filter_only(windows, both, k);
        lemma_filter_twice(windows, classed, titled);
        let other = choose|j: int|
            0 <= j < capture.toplevels@.len() && j != k && is_classed(
                #[trigger] capture.toplevels@[j],
                class@,
            );
        assert(windows[other] == capture.toplevels@[other]@);
        if other < k {
            lemma_filter_two(windows, classed, other, k);
        } else {
            lemma_filter_two(windows, classed, k, other);
        }
    }
}

/// No window is restored where the session does not ask for windows, where no class is remembered,
/// where no window has it, or where several have it of which none or several have the title.
pub proof fn law_forgotten_windows_are_not_guessed(
    capture: DirectCapture,
    types: SourceTypes,
    class: String,
    title: String,
    i: int,
    j: int,
    source: Option<ChosenSource>,
)
    requires
        call_ensures(
            resolve_restore_payload,
            (&capture, types, RestoreTokenPayload::Window { class, title }),
            source,
        ),
    ensures
        types.bits & 2 == 0 ==> source is None,
        class@.len() == 0 ==> source is None,
        (forall|k: int|
            0 <= k < capture.toplevels@.len() ==> !is_classed(
                #[trigger] capture.toplevels@[k],
                class@,
            )) ==> source is None,
        0 <= i < j < capture.toplevels@.len() && is_classed(capture.toplevels@[i], class@)
            && is_classed(capture.toplevels@[j], class@) && (forall|k: int|
            0 <= k < capture.toplevels@.len() ==> !is_classed_and_titled(
                #[trigger] capture.toplevels@[k],
                class@,
                title@,
            )) ==> source is None,
        0 <= i < j < capture.toplevels@.len() && is_classed_and_titled(
            capture.toplevels@[i],
            class@,
            title@,
        ) && is_classed_and_titled(capture.toplevels@[j], class@, title@) ==> source is None,
{
    let windows = capture@.toplevels;
    let classed = |w: ToplevelView| mark_of(w, WindowMark::Class) == class@;
    let titled = |w: ToplevelView| mark_of(w, WindowMark::Title) == title@;
    let both = |w: ToplevelView| classed(w) && titled(w);
    assert forall|k: int| 0 <= k < windows.len() implies #[trigger] windows[k]
        == capture.toplevels@[k]@ by {}
    lemma_filter_twice(windows, classed, titled);
    if forall|k: int|
        0 <= k < capture.toplevels@.len() ==> !is_classed(
            #[trigger] capture.toplevels@[k],
            class@,
        ) {
        assert forall|k: int| 0 <= k < windows.len() implies !classed(#[trigger] windows[k])
            && !both(windows[k]) by {
            assert(windows[k] == capture.toplevels@[k]@);
        }
        lemma_filter_none(windows, classed);
        lemma_filter_none(windows, both);
    }
    if 0 <= i < j < windows.len() && is_classed(capture.toplevels@[i], class@) && is_classed(
        capture.toplevels@[j],
        class@,
    ) {
        assert(classed(windows[i]) && classed(windows[j]));
        lemma_filter_two(windows, classed, i, j);
        if forall|k: int|
            0 <= k < capture.toplevels@.len() ==> !is_classed_and_titled(
                #[trigger] capture.toplevels@[k],
                class@,
                title@,
            ) {
            assert forall|k: int| 0 <= k < windows.len() implies !both(#[trigger] windows[k]) by {
                assert(windows[k] == capture.toplevels@[k]@);
            }
            lemma_filter_none(windows, both);
        }
        if is_classed_and_titled(capture.toplevels@[i], class@, title@) && is_classed_and_titled(
            capture.toplevels@[j],
            class@,
            title@,
        ) {
            assert(both(windows[i]) && both(windows[j]));
            lemma_filter_two(windows, both, i, j);
        }
    }
}

/// An application is told of one stream: the node and the serial number of the cast, its extent,
/// and the kind of its source.
pub proof fn law_started_streams_are_described(
    portal: ScreenCastPortal,
    options: ScreenCastOptions,
    source: ChosenSource,
    cast: ScreencastThread,
    token: Option<String>,
    response: PortalResponse<StartResult>,
)
    requires
        call_ensures(
            ScreenCastPortal::started,
            (&portal, &options, &source, cast, token),
            response,
        ),
    ensures
        response matches PortalResponse::Success(result) && result.streams@.len() == 1 && ({
            let stream = result.streams@[0];
            &&& stream.node_id == cast.node_id
            &&& stream.properties.pipewire_serial == cast.pipewire_serial
            &&& stream.properties.size.0 == cast.size.width as i32
            &&& stream.properties.size.1 == cast.size.height as i32
            &&& stream.properties.source_type == source.source_type
            &&& stream.properties.position is None
            &&& stream.properties.mapping_id is None
        }),
{
}

/// A token is handed out exactly where the application asked for one, the user allows it and it
/// could be written. It is one of ours and holds the text, and it comes with the mode that the
/// application asked for.
pub proof fn law_tokens_are_handed_out_where_due(
    portal: ScreenCastPortal,
    options: ScreenCastOptions,
    source: ChosenSource,
    cast: ScreencastThread,
    token: Option<String>,
    response: PortalResponse<StartResult>,
)
    requires
        call_ensures(
            ScreenCastPortal::started,
            (&portal, &options, &source, cast, token),
            response,
        ),
    ensures
        response matches PortalResponse::Success(result) && ({
            let due = options.persist_mode != PersistMode::DoNot && source.allow_restore_token
                && token is Some;
            &&& result.restore_data is Some <==> due
            &&& due ==> is_own_token(result.restore_data->0)
                && result.restore_data->0.data->Text_0@ == token->0@
            &&& due ==> result.persist_mode == Some(options.persist_mode)
            &&& !due ==> result.persist_mode is None
        }),
{
}

/// A token that was made of a text is one of ours, and gives the text back. What is not one of ours
/// gives nothing.
pub proof fn law_tokens_round_trip(
    text: Option<String>,
    token: Option<RestoreData>,
    other: RestoreData,
    read: Option<String>,
)
    requires
        call_ensures(restore_data_from_payload, (text,), token),
        call_ensures(decode_restore_data, (&other,), read),
    ensures
        token is Some <==> text is Some,
        token matches Some(made) ==> is_own_token(made) && made.data->Text_0@ == text->0@,
        read is Some <==> is_own_token(other),
        read matches Some(t) ==> t@ == other.data->Text_0@,
        token matches Some(made) && same_token(made, other) ==> (read matches Some(t) && t@
            == text->0@),
{
}

/// A window is shown under its handle and remembered by its class and title.
pub proof fn law_windows_are_sources(window: ToplevelInfo, allowed: bool, source: ChosenSource)
    requires
        call_ensures(restored_window, (&window, allowed), source),
    ensures
        source.target == CaptureTarget::Toplevel(window.handle),
        source.source_type == SourceType::Window,
        source.allow_restore_token == allowed,
        source.restore_payload matches RestoreTokenPayload::Window { class, title } && class@
            == window.app_id@ && title@ == window.title@,
{
}

/// The portal can show monitors and windows, and the pointer in the frames or not at all.
pub proof fn law_portal_describes_itself(
    portal: ScreenCastPortal,
    types: u32,
    modes: u32,
    version: u32,
    reason: &str,
    text: String,
)
    requires
        call_ensures(ScreenCastPortal::available_source_types, (&portal,), types),
        call_ensures(ScreenCastPortal::available_cursor_modes, (&portal,), modes),
        call_ensures(ScreenCastPortal::version, (&portal,), version),
        call_ensures(ScreenCastPortal::start_failure, (&portal, reason), text),
    ensures
        types == 1 + 2,
        modes == 1 + 2,
        version == 6,
        text@ == "cannot start PipeWire stream: "@ + reason@,
{
}

/// The pointer is hidden, embedded or metadata, a bit for each, and sources are monitors, windows
/// or virtual.
pub proof fn law_modes_are_bits(mode: CursorMode, source: SourceType, m: u32, s: u32)
    requires
        call_ensures(CursorMode::bits, (&mode,), m),
        call_ensures(SourceType::bits, (&source,), s),
    ensures
        mode == CursorMode::Hidden ==> m == 1,
        mode == CursorMode::Embedded ==> m == 2,
        mode == CursorMode::Metadata ==> m == 4,
        source == SourceType::Monitor ==> s == 1,
        source == SourceType::Window ==> s == 2,
        source == SourceType::Virtual ==> s == 4,
{
}

/// By default a session asks for monitors and windows, without the pointer, and for this time only.
/// A portal keeps its settings.
pub proof fn law_sessions_begin_with_little(
    options: ScreenCastOptions,
    mode: PersistMode,
    types: SourceTypes,
    config: Config,
    portal: ScreenCastPortal,
)
    requires
        call_ensures(ScreenCastOptions::default, (), options),
        call_ensures(PersistMode::default, (), mode),
        call_ensures(SourceTypes::monitors_and_windows, (), types),
        call_ensures(ScreenCastPortal::new, (config,), portal),
    ensures
        options.source_types.bits == 1 + 2,
        options.cursor_mode == CursorMode::Hidden,
        options.persist_mode == PersistMode::DoNot,
        options.restore_data is None,
        mode == PersistMode::DoNot,
        types.bits == 1 + 2,
        portal.config == config,
{
}

/// The question whether to keep the choice comes up for an application that asks for that. The
/// answer starts out as yes, but where the user has to say so, only if there is a token already. A
/// token is handed out where the application asks for it and the user allows it.
pub proof fn law_keeping_is_asked_for(
    options: ScreenCastOptions,
    offered: Option<bool>,
    mode: PersistMode,
    allowed: bool,
    due: bool,
)
    requires
        call_ensures(restore_token_default, (&options,), offered),
        call_ensures(should_return_restore_token, (mode, allowed), due),
    ensures
        options.persist_mode == PersistMode::DoNot ==> offered is None,
        options.persist_mode == PersistMode::Application ==> offered == Some(true),
        options.persist_mode == PersistMode::Explicit && options.restore_data is Some ==> offered
            == Some(true),
        options.persist_mode == PersistMode::Explicit && options.restore_data is None ==> offered
            == Some(false),
        due <==> allowed && (mode == PersistMode::Application || mode == PersistMode::Explicit),
{
}

} // verus!
