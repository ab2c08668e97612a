//! The main window's navigation and the floating voice indicator.

use vstd::prelude::*;
use crate::text::text_eq;
use crate::urls::{
    app_page, app_page_url, checked_url, indicator_page, indicator_page_url, spec_url_parses,
};

verus! {

/// The message when the main window is gone.
pub open spec fn main_window_missing_message() -> Seq<char> {
    "Hauptfenster fehlt"@
}

/// Where the main window goes to show the server's UI: the server's
/// application page, if the main window exists and the address parses.
pub fn navigate_main_to_app(main_window_present: bool, server_url: &str) -> (res: Result<
    String,
    String,
>)
    ensures
        !main_window_present ==> (res matches Err(e) && e@ == main_window_missing_message()),
        main_window_present ==> match res {
            Ok(u) => checked_url(app_page(server_url@)) == Ok::<Seq<char>, Seq<char>>(u@),
            Err(e) => checked_url(app_page(server_url@)) == Err::<Seq<char>, Seq<char>>(e@),
        },
{
    if !main_window_present {
        return Err(String::from_str("Hauptfenster fehlt"));
    }
    app_page_url(server_url)
}

/// What to do with the voice indicator.
pub enum IndicatorPlan {
    /// Hide the indicator window, if there is one.
    Hide,
    /// Show the existing indicator window and pass it the state.
    Show,
    /// Create the indicator window on this page, then show it and pass it
    /// the state.
    Create(String),
    /// Nothing can be shown: no window and no server to load it from.
    Skip,
    /// The indicator window cannot be created; the message says why.
    Fail(String),
}

/// The indicator plan in plain values.
pub enum IndicatorPlanView {
    Hide,
    Show,
    Create(Seq<char>),
    Skip,
    Fail(Seq<char>),
}

impl View for IndicatorPlan {
    type V = IndicatorPlanView;

    open spec fn view(&self) -> IndicatorPlanView {
        match self {
            IndicatorPlan::Hide => IndicatorPlanView::Hide,
            IndicatorPlan::Show => IndicatorPlanView::Show,
            IndicatorPlan::Create(u) => IndicatorPlanView::Create(u@),
            IndicatorPlan::Skip => IndicatorPlanView::Skip,
            IndicatorPlan::Fail(e) => IndicatorPlanView::Fail(e@),
        }
    }
}

/// The indicator plan for `state` (`hidden`, `listening`, `thinking`,
/// `speaking`), given whether the indicator window exists and the server
/// address, if one is connected.
pub open spec fn indicator_plan(state: Seq<char>, window_exists: bool, server_url: Option<Seq<char>>) -> IndicatorPlanView {
    if state == "hidden"@ {
        IndicatorPlanView::Hide
    } else if window_exists {
        IndicatorPlanView::Show
    } else {
        match server_url {
            None => IndicatorPlanView::Skip,
            Some(server) => match checked_url(indicator_page(server)) {
                Ok(u) => IndicatorPlanView::Create(u),
                Err(e) => IndicatorPlanView::Fail(e),
            },
        }
    }
}

/// Decides how the voice indicator follows a new state: `hidden` hides it;
/// any other state shows it, creating its window first if needed.
pub fn set_indicator(state: &str, window_exists: bool, server_url: Option<&str>) -> (res: IndicatorPlan)
    ensures
        res@ == indicator_plan(
            state@,
            window_exists,
            match server_url {
                Some(s) => Some(s@),
                None => None,
            },
        ),
{
    if text_eq(state, "hidden") {
        return IndicatorPlan::Hide;
    }
    if window_exists {
        return IndicatorPlan::Show;
    }
    match server_url {
        None => IndicatorPlan::Skip,
        Some(server) => match indicator_page_url(server) {
            Ok(u) => IndicatorPlan::Create(u),
            Err(e) => IndicatorPlan::Fail(e),
        },
    }
}

/// An existing indicator window is reused for every visible state,
/// whatever the server address; a window is created only when none exists,
/// on the server's indicator page; `hidden` always hides.
pub proof fn law_indicator_window_reused(
    state: Seq<char>,
    window_exists: bool,
    server_url: Option<Seq<char>>,
)
    ensures
        state == "hidden"@ ==> indicator_plan(state, window_exists, server_url)
            == IndicatorPlanView::Hide,
        window_exists && state != "hidden"@ ==> indicator_plan(state, window_exists, server_url)
            == IndicatorPlanView::Show,
        indicator_plan(state, window_exists, server_url) matches IndicatorPlanView::Create(u) ==> {
            &&& !window_exists
            &&& server_url matches Some(server)
            &&& u == server + "/app/#/indicator"@
        },
        !window_exists && state != "hidden"@ ==> (server_url is None <==> indicator_plan(
            state,
            window_exists,
            server_url,
        ) is Skip),
        !window_exists && state != "hidden"@ ==> (server_url matches Some(server) ==> {
            ||| spec_url_parses(server + "/app/#/indicator"@) && indicator_plan(
                state,
                window_exists,
                server_url,
            ) == IndicatorPlanView::Create(server + "/app/#/indicator"@)
            ||| !spec_url_parses(server + "/app/#/indicator"@) && indicator_plan(
                state,
                window_exists,
                server_url,
            ) is Fail
        }),
{
}

} // verus!
