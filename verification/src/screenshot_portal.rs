//! The screenshot portal: the user selects an area, and the application gets the file.

use vstd::prelude::*;

use crate::portal::PortalResponse;
use crate::shell::{
    CustomRegion,
    RegionSelectorOptions,
    RegionSelectorResult,
    ShellError,
    ShinyShell,
};

verus! {

/// What a screenshot shows.
#[derive(Debug, Clone, Copy, PartialEq, Eq, Structural)]
pub enum ScreenshotTarget {
    Screen,
    Window,
    Area,
    ActiveWindow,
}

impl ScreenshotTarget {
    /// The bit of a target.
    pub open spec fn bit(self) -> u32 {
        match self {
            ScreenshotTarget::Screen => 1,
            ScreenshotTarget::Window => 2,
            ScreenshotTarget::Area => 4,
            ScreenshotTarget::ActiveWindow => 8,
        }
    }

    /// The bit of a target.
    pub fn bits(&self) -> (bits: u32)
        ensures
            bits == self.bit(),
    {
        match self {
            ScreenshotTarget::Screen => 1,
            ScreenshotTarget::Window => 2,
            ScreenshotTarget::Area => 4,
            ScreenshotTarget::ActiveWindow => 8,
        }
    }
}

/// What the application gets.
#[derive(Debug)]
pub struct ScreenshotResult {
    pub uri: String,
}

/// What to do once the area was selected.
#[derive(Debug)]
pub enum ScreenshotStep {
    /// Answer the request.
    Respond(PortalResponse<ScreenshotResult>),
    /// Capture the region.
    Capture(CustomRegion),
}

/// The screenshot portal.
#[derive(Debug, Clone, Copy, PartialEq, Eq, Structural)]
pub struct ScreenshotPortal {
    pub shell: ShinyShell,
}

impl Default for ScreenshotPortal {
    fn default() -> (portal: Self)
        ensures
            portal == (ScreenshotPortal { shell: ShinyShell }),
    {
        ScreenshotPortal { shell: ShinyShell }
    }
}

impl ScreenshotPortal {
    /// What a screenshot can show: an area only.
    pub fn available_targets(&self) -> (targets: u32)
        ensures
            targets == ScreenshotTarget::Area.bit(),
    {
        ScreenshotTarget::Area.bits()
    }

    /// The version of the interface.
    pub fn version(&self) -> (version: u32)
        ensures
            version == 3,
    {
        3
    }

    /// Whether a screenshot shows what the application asked for. If not, it shows an area anyway.
    pub fn honours_target(&self, target: Option<ScreenshotTarget>) -> (honours: bool)
        ensures
            honours == (target matches Some(t) ==> t == ScreenshotTarget::Area),
    {
        match target {
            Some(target) => target == ScreenshotTarget::Area,
            None => true,
        }
    }

    /// How the area is to be selected.
    pub fn selector_options(&self) -> (options: RegionSelectorOptions)
        ensures
            options == (RegionSelectorOptions {
                freeze: Some(false),
                hint_windows: Some(true),
                hint_layers: Some(true),
            }),
    {
        RegionSelectorOptions {
            freeze: Some(false),
            hint_windows: Some(true),
            hint_layers: Some(true),
        }
    }

    /// The area that was selected, if the user did not refuse.
    pub fn select_area(&self, result: RegionSelectorResult) -> (region: Option<CustomRegion>)
        ensures
            region == match result {
                RegionSelectorResult::Selected { result, .. } => Some(result),
                RegionSelectorResult::Cancelled { .. } => None,
            },
    {
        match result {
            RegionSelectorResult::Selected { result, .. } => Some(result),
            RegionSelectorResult::Cancelled { .. } => None,
        }
    }

    /// What to do with what the shell answered.
    pub fn screenshot(&self, answer: Result<RegionSelectorResult, ShellError>) -> (step:
        ScreenshotStep)
        ensures
            step == match answer {
                Ok(RegionSelectorResult::Selected { result, .. }) => ScreenshotStep::Capture(
                    result,
                ),
                Ok(RegionSelectorResult::Cancelled { .. }) => ScreenshotStep::Respond(
                    PortalResponse::Cancelled,
                ),
                Err(_) => ScreenshotStep::Respond(PortalResponse::Other),
            },
    {
        match answer {
            Ok(result) => match self.select_area(result) {
                Some(region) => ScreenshotStep::Capture(region),
                None => ScreenshotStep::Respond(PortalResponse::Cancelled),
            },
            Err(_) => ScreenshotStep::Respond(PortalResponse::Other),
        }
    }

    /// Answers the request once the file was written, or could not be.
    pub fn saved(&self, uri: Option<String>) -> (response: PortalResponse<ScreenshotResult>)
        ensures
            response == match uri {
                Some(uri) => PortalResponse::Success(ScreenshotResult { uri }),
                None => PortalResponse::Other,
            },
    {
        match uri {
            Some(uri) => PortalResponse::Success(ScreenshotResult { uri }),
            None => PortalResponse::Other,
        }
    }
}

/// What a screenshot can show is a bit each, and the portal has that of areas alone.
pub proof fn law_targets_are_bits(
    target: ScreenshotTarget,
    bits: u32,
    portal: ScreenshotPortal,
    available: u32,
    version: u32,
)
    requires
        call_ensures(ScreenshotTarget::bits, (&target,), bits),
        call_ensures(ScreenshotPortal::available_targets, (&portal,), available),
        call_ensures(ScreenshotPortal::version, (&portal,), version),
    ensures
        target is Screen <==> bits == 1,
        target is Window <==> bits == 2,
        target is Area <==> bits == 4,
        target is ActiveWindow <==> bits == 8,
        available == 4,
        version == 3,
{
}

/// An application that asks for an area, or for nothing, gets what it asked for. Any other does
/// not.
pub proof fn law_areas_are_honoured(
    portal: ScreenshotPortal,
    target: Option<ScreenshotTarget>,
    honours: bool,
)
    requires
        call_ensures(ScreenshotPortal::honours_target, (&portal, target), honours),
    ensures
        honours <==> target is None || target == Some(ScreenshotTarget::Area),
{
}

/// The area is selected on a screen that moves on, with hints on windows and layers.
pub proof fn law_selectors_give_hints(portal: ScreenshotPortal, options: RegionSelectorOptions)
    requires
        call_ensures(ScreenshotPortal::selector_options, (&portal,), options),
    ensures
        options.freeze == Some(false),
        options.hint_windows == Some(true),
        options.hint_layers == Some(true),
{
}

/// The area that was selected is captured. A user who refuses and a shell that fails are answered
/// each in their own way.
pub proof fn law_selected_areas_are_captured(
    portal: ScreenshotPortal,
    result: RegionSelectorResult,
    region: Option<CustomRegion>,
    answer: Result<RegionSelectorResult, ShellError>,
    step: ScreenshotStep,
)
    requires
        call_ensures(ScreenshotPortal::select_area, (&portal, result), region),
        call_ensures(ScreenshotPortal::screenshot, (&portal, answer), step),
    ensures
        result matches RegionSelectorResult::Selected { key, result: selected } ==> region == Some(
            selected,
        ),
        result is Cancelled ==> region is None,
        answer matches Ok(reply) ==> (reply matches RegionSelectorResult::Selected {
            key,
            result: selected,
        } ==> (step matches ScreenshotStep::Capture(captured) && captured == selected)),
        answer matches Ok(reply) ==> (reply is Cancelled ==> (step matches ScreenshotStep::Respond(
            response,
        ) && response is Cancelled)),
        answer is Err ==> (step matches ScreenshotStep::Respond(response) && response is Other),
{
}

/// The application gets the URI of the file that was written, and a failure where none was.
pub proof fn law_saved_files_are_handed_out(
    portal: ScreenshotPortal,
    uri: Option<String>,
    response: PortalResponse<ScreenshotResult>,
)
    requires
        call_ensures(ScreenshotPortal::saved, (&portal, uri), response),
    ensures
        uri matches Some(text) ==> (response matches PortalResponse::Success(result)
            && result.uri@ == text@),
        uri is None ==> response is Other,
{
}

} // verus!
