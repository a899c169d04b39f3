//! `window`: what its properties hold.
use vstd::prelude::*;
use vstd::string::*;

use crate::js::weburl;
use crate::js::weburl::{Location, LocationView};

verus! {

/// The properties of `window.navigator`.
pub struct Navigator {
    pub user_agent: String,
    pub language: &'static str,
    pub languages: Vec<&'static str>,
    pub platform: &'static str,
    pub vendor: &'static str,
    pub app_name: &'static str,
    pub app_version: String,
}

/// The properties of `window` that hold data.
pub struct WindowGlobals {
    pub inner_width: u32,
    pub inner_height: u32,
    pub outer_width: u32,
    pub outer_height: u32,
    pub device_pixel_ratio: u32,
    pub name: String,
    pub length: u32,
    pub closed: bool,
    /// `window.history.length`
    pub history_length: u32,
    pub navigator: Navigator,
    pub location: Location,
}

/// What the properties of `window.navigator` say.
pub open spec fn navigator_says(n: Navigator, user_agent: Seq<char>) -> bool {
    &&& n.user_agent@ == user_agent
    &&& n.app_version@ == user_agent
    &&& n.language@ == "en-US"@
    &&& n.languages@.len() == 2
    &&& n.languages@[0]@ == "en-US"@
    &&& n.languages@[1]@ == "en"@
    &&& n.platform@ == "MacIntel"@
    &&& n.vendor@ == "Google Inc."@
    &&& n.app_name@ == "Netscape"@
}

/// What the properties of `window` hold: the viewport's size twice, an empty
/// name, no frames, a history of one entry, the navigator and the location.
pub open spec fn window_says(
    w: WindowGlobals,
    width: u32,
    height: u32,
    user_agent: Seq<char>,
    location: LocationView,
) -> bool {
    &&& w.inner_width == width
    &&& w.outer_width == width
    &&& w.inner_height == height
    &&& w.outer_height == height
    &&& w.device_pixel_ratio == 1
    &&& w.name@.len() == 0
    &&& w.length == 0
    &&& !w.closed
    &&& w.history_length == 1
    &&& navigator_says(w.navigator, user_agent)
    &&& w.location@ == location
}

/// What the properties of `window` hold for a page, where `location` is the
/// page's location.
pub fn window_globals_at(
    viewport: (u32, u32),
    user_agent: &str,
    location: Location,
) -> (r: WindowGlobals)
    ensures
        window_says(r, viewport.0, viewport.1, user_agent@, location@),
{
    WindowGlobals {
        inner_width: viewport.0,
        inner_height: viewport.1,
        outer_width: viewport.0,
        outer_height: viewport.1,
        device_pixel_ratio: 1,
        name: String::new(),
        length: 0,
        closed: false,
        history_length: 1,
        navigator: Navigator {
            user_agent: user_agent.to_owned(),
            language: "en-US",
            languages: vec!["en-US", "en"],
            platform: "MacIntel",
            vendor: "Google Inc.",
            app_name: "Netscape",
            app_version: user_agent.to_owned(),
        },
        location,
    }
}

/// What the properties of `window` hold for a page.
pub fn window_globals(viewport: (u32, u32), page_url: &str, user_agent: &str) -> (r: WindowGlobals)
    ensures
        window_says(
            r,
            viewport.0,
            viewport.1,
            user_agent@,
            weburl::location_view(page_url@, weburl::parsed_url(page_url@)),
        ),
{
    window_globals_at(viewport, user_agent, weburl::location(page_url))
}

/// How scripts are told which browser runs them.
pub fn user_agent() -> (r: &'static str)
    ensures
        r@ == "OxiBrowser/0.2"@,
{
    "OxiBrowser/0.2"
}

/// A window is as large outside as inside, both as the viewport; its navigator
/// names the browser in both its properties and prefers the language that it
/// lists first; its location is the page's, and it is open, alone and unnamed.
pub proof fn lemma_window(
    w: WindowGlobals,
    width: u32,
    height: u32,
    user_agent: Seq<char>,
    location: LocationView,
)
    requires
        window_says(w, width, height, user_agent, location),
    ensures
        w.inner_width == width && w.outer_width == width,
        w.inner_height == height && w.outer_height == height,
        w.navigator.user_agent@ == user_agent,
        w.navigator.app_version@ == user_agent,
        w.navigator.languages@[0]@ == w.navigator.language@,
        w.navigator.language@.len() == 5,
        w.location.href@ == location.href,
        w.location.origin@ == location.origin,
        w.location.protocol@ == location.protocol,
        w.location.hostname@ == location.hostname,
        w.location.pathname@ == location.pathname,
        !w.closed && w.length == 0 && w.name@.len() == 0 && w.history_length == 1
            && w.device_pixel_ratio == 1,
{
    reveal_strlit("en-US");
}

} // verus!
