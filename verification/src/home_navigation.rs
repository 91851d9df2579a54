//! Navigation of the home screen: the selected top-level tab, the settings
//! screen that returns to where it was opened from, and, on mobile, the stack
//! of screens that "back" walks down.

use vstd::prelude::*;

verus! {

/// The selected top-level tab.
#[derive(Debug, PartialEq, Eq)]
pub enum SelectedTab {
    Home,
    AddRoom,
    Settings,
    /// A space, by its room ID.
    Space(String),
}

/// The page that a tab shows.
#[derive(Clone, Copy, Debug, PartialEq, Eq, Structural)]
pub enum HomePage {
    HomePage,
    SettingsPage,
    AddRoomPage,
}

/// A request of the navigation bar.
#[derive(Debug)]
pub enum NavigationRequest {
    GoToHome,
    GoToAddRoom,
    GoToSpace(String),
    OpenSettings,
    CloseSettings,
    ToggleSpacesBar,
}

/// What a request changed.
#[derive(Debug, PartialEq, Eq)]
pub enum NavigationEffect {
    /// Nothing.
    Unchanged,
    /// Another tab is selected (announce it and show its page).
    TabSelected(HomePage),
    /// The spaces bar is now shown (`true`) or hidden.
    SpacesBar(bool),
}

pub open spec fn page_of(t: SelectedTab) -> HomePage {
    match t {
        SelectedTab::Home | SelectedTab::Space(_) => HomePage::HomePage,
        SelectedTab::Settings => HomePage::SettingsPage,
        SelectedTab::AddRoom => HomePage::AddRoomPage,
    }
}

/// The page that a tab shows: spaces and home show the home page.
pub fn active_page(t: &SelectedTab) -> (p: HomePage)
    ensures
        p == page_of(*t),
{
    match t {
        SelectedTab::Home | SelectedTab::Space(_) => HomePage::HomePage,
        SelectedTab::Settings => HomePage::SettingsPage,
        SelectedTab::AddRoom => HomePage::AddRoomPage,
    }
}

fn copy_tab(t: &SelectedTab) -> (r: SelectedTab)
    ensures
        r == *t,
{
    match t {
        SelectedTab::Home => SelectedTab::Home,
        SelectedTab::AddRoom => SelectedTab::AddRoom,
        SelectedTab::Settings => SelectedTab::Settings,
        SelectedTab::Space(s) => SelectedTab::Space(s.clone()),
    }
}

/// Whether two tabs are the same tab (spaces by their room ID's text).
pub open spec fn tab_eq(a: SelectedTab, b: SelectedTab) -> bool {
    match (a, b) {
        (SelectedTab::Space(x), SelectedTab::Space(y)) => x@ == y@,
        (SelectedTab::Space(_), _) | (_, SelectedTab::Space(_)) => false,
        _ => a == b,
    }
}

fn same_tab(a: &SelectedTab, b: &SelectedTab) -> (r: bool)
    ensures
        r == tab_eq(*a, *b),
{
    match (a, b) {
        (SelectedTab::Home, SelectedTab::Home) => true,
        (SelectedTab::AddRoom, SelectedTab::AddRoom) => true,
        (SelectedTab::Settings, SelectedTab::Settings) => true,
        (SelectedTab::Space(x), SelectedTab::Space(y)) => *x == *y,
        _ => false,
    }
}

/// The tab to select for a request that selects one.
pub open spec fn target_of(r: NavigationRequest) -> Option<SelectedTab> {
    match r {
        NavigationRequest::GoToHome => Some(SelectedTab::Home),
        NavigationRequest::GoToAddRoom => Some(SelectedTab::AddRoom),
        NavigationRequest::GoToSpace(s) => Some(SelectedTab::Space(s)),
        NavigationRequest::OpenSettings => Some(SelectedTab::Settings),
        _ => None,
    }
}

/// The navigation state: the selected tab, the one selected before it, and
/// whether the spaces bar is shown.
#[derive(Debug)]
pub struct HomeNavigation {
    pub selected_tab: SelectedTab,
    pub previous_selection: SelectedTab,
    pub spaces_bar_shown: bool,
}

/// The state after a request, and what the request changed. Selecting
/// another tab keeps the current one as the previous selection; selecting the
/// current tab changes nothing. Closing the settings returns to the previous
/// selection. The spaces bar toggles.
pub open spec fn navigate(s: HomeNavigation, request: NavigationRequest) -> (HomeNavigation, NavigationEffect) {
    match target_of(request) {
        Some(t) => if tab_eq(t, s.selected_tab) {
            (s, NavigationEffect::Unchanged)
        } else {
            (HomeNavigation { selected_tab: t, previous_selection: s.selected_tab, spaces_bar_shown: s.spaces_bar_shown },
                NavigationEffect::TabSelected(page_of(t)))
        },
        None => match request {
            NavigationRequest::CloseSettings => if tab_eq(s.selected_tab, SelectedTab::Settings) {
                (HomeNavigation { selected_tab: s.previous_selection, previous_selection: s.previous_selection,
                    spaces_bar_shown: s.spaces_bar_shown },
                    NavigationEffect::TabSelected(page_of(s.previous_selection)))
            } else {
                (s, NavigationEffect::Unchanged)
            },
            _ => (HomeNavigation { selected_tab: s.selected_tab, previous_selection: s.previous_selection,
                    spaces_bar_shown: !s.spaces_bar_shown },
                NavigationEffect::SpacesBar(!s.spaces_bar_shown)),
        },
    }
}

impl HomeNavigation {
    /// Home selected, the spaces bar hidden.
    pub fn new() -> (r: HomeNavigation)
        ensures
            r.selected_tab == SelectedTab::Home,
            r.previous_selection == SelectedTab::Home,
            !r.spaces_bar_shown,
    {
        HomeNavigation { selected_tab: SelectedTab::Home, previous_selection: SelectedTab::Home, spaces_bar_shown: false }
    }

    /// Handles a request of the navigation bar (see `navigate`).
    pub fn handle(&mut self, request: NavigationRequest) -> (e: NavigationEffect)
        ensures
            (*final(self), e) == navigate(*old(self), request),
    {
        let ghost req = request;
        let target = match request {
            NavigationRequest::GoToHome => SelectedTab::Home,
            NavigationRequest::GoToAddRoom => SelectedTab::AddRoom,
            NavigationRequest::GoToSpace(s) => SelectedTab::Space(s),
            NavigationRequest::OpenSettings => SelectedTab::Settings,
            NavigationRequest::CloseSettings => {
                if same_tab(&self.selected_tab, &SelectedTab::Settings) {
                    self.selected_tab = copy_tab(&self.previous_selection);
                    return NavigationEffect::TabSelected(active_page(&self.selected_tab));
                }
                return NavigationEffect::Unchanged;
            },
            NavigationRequest::ToggleSpacesBar => {
                self.spaces_bar_shown = !self.spaces_bar_shown;
                return NavigationEffect::SpacesBar(self.spaces_bar_shown);
            },
        };
        assert(target_of(req) == Some(target));
        if same_tab(&self.selected_tab, &target) {
            return NavigationEffect::Unchanged;
        }
        let page = active_page(&target);
        let mut t = target;
        std::mem::swap(&mut self.selected_tab, &mut t);
        self.previous_selection = t;
        NavigationEffect::TabSelected(page)
    }
}

/// Opening the settings from another tab and closing them again returns to
/// that tab, with it as the previous selection and the spaces bar as it was.
pub proof fn lemma_settings_round_trip(s: HomeNavigation)
    requires
        !tab_eq(s.selected_tab, SelectedTab::Settings),
    ensures
        navigate(navigate(s, NavigationRequest::OpenSettings).0, NavigationRequest::CloseSettings).0
            == (HomeNavigation { selected_tab: s.selected_tab, previous_selection: s.selected_tab,
                spaces_bar_shown: s.spaces_bar_shown }),
{
}

/// Toggling the spaces bar twice leaves the navigation as it was.
pub proof fn lemma_spaces_bar_toggle_twice(s: HomeNavigation)
    ensures
        navigate(navigate(s, NavigationRequest::ToggleSpacesBar).0, NavigationRequest::ToggleSpacesBar).0 == s,
{
}

/// The screens of the mobile stack: the one shown, and those under it (the
/// last one on top).
#[derive(Debug)]
pub struct MobileStack<S> {
    pub selected: Option<S>,
    pub history: Vec<S>,
}

/// What "back" does to the stack.
#[derive(Clone, Copy, Debug, PartialEq, Eq, Structural)]
pub enum PopOutcome {
    /// Nothing (the stack animates, nothing is shown, or the previous screen
    /// could not be set up).
    Nothing,
    /// The previous screen is shown again.
    PopToPrevious,
    /// No screen is left: back to the rooms list.
    PopToRoot,
}

/// The stack once `screen` is pushed: it is shown, and the screen shown so
/// far, if the stack shows one, goes on the history.
pub open spec fn pushed<S>(selected: Option<S>, history: Seq<S>, screen: S, has_current_screen: bool) -> (Option<S>, Seq<S>) {
    (Some(screen), if has_current_screen && selected is Some { history.push(selected->0) } else { history })
}

/// The stack after "back": the previous screen is shown again when there is
/// one and it could be set up (`previous_ready`); with no previous screen,
/// none is shown. Nothing happens while the stack animates or shows nothing.
pub open spec fn popped<S>(selected: Option<S>, history: Seq<S>, transitioning: bool, previous_ready: bool)
    -> (PopOutcome, Option<S>, Seq<S>)
{
    if transitioning || selected is None {
        (PopOutcome::Nothing, selected, history)
    } else if history.len() == 0 {
        (PopOutcome::PopToRoot, None, history)
    } else if previous_ready {
        (PopOutcome::PopToPrevious, Some(history.last()), history.drop_last())
    } else {
        (PopOutcome::Nothing, selected, history)
    }
}

impl<S> MobileStack<S> {
    /// No screen shown.
    pub fn new() -> (r: MobileStack<S>)
        ensures
            r.selected is None,
            r.history@.len() == 0,
    {
        MobileStack { selected: None, history: Vec::new() }
    }

    /// Whether a selected screen is pushed: not while the stack animates,
    /// and not when it is the screen already shown (`same_as_selected`).
    pub fn should_push(&self, transitioning: bool, has_current_screen: bool, same_as_selected: bool) -> (r: bool)
        ensures
            r == (!transitioning && !(has_current_screen && self.selected is Some && same_as_selected)),
    {
        !transitioning && !(has_current_screen && self.selected.is_some() && same_as_selected)
    }

    /// Shows `screen` on top; the screen shown so far, if the stack shows
    /// one, goes on the history (see `pushed`).
    pub fn push(&mut self, screen: S, has_current_screen: bool)
        ensures
            (final(self).selected, final(self).history@) == pushed(old(self).selected, old(self).history@, screen, has_current_screen),
    {
        if has_current_screen {
            if let Some(prev) = self.selected.take() {
                self.history.push(prev);
            }
        }
        self.selected = Some(screen);
    }

    /// "Back" (see `popped`).
    pub fn pop(&mut self, transitioning: bool, previous_ready: bool) -> (r: PopOutcome)
        ensures
            (r, final(self).selected, final(self).history@) == popped(old(self).selected, old(self).history@, transitioning, previous_ready),
    {
        if transitioning || self.selected.is_none() {
            return PopOutcome::Nothing;
        }
        if self.history.len() == 0 {
            self.selected = None;
            return PopOutcome::PopToRoot;
        }
        if !previous_ready {
            return PopOutcome::Nothing;
        }
        let prev = self.history.pop();
        self.selected = prev;
        PopOutcome::PopToPrevious
    }

    /// Forgets the history (when the layout switches between desktop and mobile).
    pub fn clear_history(&mut self)
        ensures
            final(self).selected == old(self).selected,
            final(self).history@.len() == 0,
    {
        self.history.clear();
    }
}

/// A screen pushed over a shown one, then "back" (with the previous screen
/// set up), shows the first screen again over the same history.
pub proof fn lemma_push_then_back<S>(shown: S, history: Seq<S>, screen: S)
    ensures ({
        let p = pushed(Some(shown), history, screen, true);
        popped(p.0, p.1, false, true) == (PopOutcome::PopToPrevious, Some(shown), history)
    }),
{
    assert(history.push(shown).drop_last() =~= history);
}

/// "Back" on the first screen pushed returns to the rooms list and leaves
/// the history empty.
pub proof fn lemma_back_from_first_screen<S>(screen: S)
    ensures ({
        let p = pushed(None, Seq::<S>::empty(), screen, false);
        popped(p.0, p.1, false, true) == (PopOutcome::PopToRoot, None::<S>, Seq::<S>::empty())
    }),
{
}

// ---------------------------------------------------------------------------
// The profile icon of the navigation bar
// ---------------------------------------------------------------------------

/// Whether the user's own profile is fetched again on a signal: when it is
/// not known yet, or its avatar image is still awaited.
pub fn should_refetch_own_profile(profile_known: bool, avatar_pending: bool) -> (r: bool)
    ensures
        r == (!profile_known || avatar_pending),
{
    !profile_known || avatar_pending
}

/// The tooltip of the profile icon: who is logged in (by the name shown for
/// them), then the verification status.
pub fn profile_tooltip_text(own_name: Option<&str>, verification: &str) -> (r: String)
    ensures
        r@ == match own_name {
            Some(n) => "Logged in as \""@ + n@ + "\".\n\n"@ + verification@,
            None => "Not logged in.\n\n"@ + verification@,
        },
{
    match own_name {
        Some(n) => {
            let mut r = String::from_str("Logged in as \"");
            r.append(n);
            r.append("\".\n\n");
            r.append(verification);
            r
        },
        None => {
            let mut r = String::from_str("Not logged in.\n\n");
            r.append(verification);
            r
        },
    }
}

/// Whether selecting `tab` switches the dock to another space's layout, and
/// to which: a space other than the one shown switches to that space; home
/// switches back from a space; anything else keeps the layout.
pub fn space_switch(tab: &SelectedTab, selected_space: Option<&str>) -> (r: Option<Option<String>>)
    ensures
        match *tab {
            SelectedTab::Space(id) => match selected_space {
                Some(cur) if cur@ == id@ => r is None,
                _ => r matches Some(Some(n)) && n@ == id@,
            },
            SelectedTab::Home => if selected_space is Some { r == Some(None::<String>) } else { r is None },
            _ => r is None,
        },
{
    match tab {
        SelectedTab::Space(id) => match selected_space {
            Some(cur) => if String::from_str(cur) == *id { None } else { Some(Some(id.clone())) },
            None => Some(Some(id.clone())),
        },
        SelectedTab::Home => match selected_space {
            Some(_) => Some(None),
            None => None,
        },
        _ => None,
    }
}

/// The request of a click on the navigation bar's radio buttons (home, add
/// room, settings, in that order).
pub fn request_for_radio_button(index: usize) -> (r: Option<NavigationRequest>)
    ensures
        index == 0 ==> (r matches Some(NavigationRequest::GoToHome)),
        index == 1 ==> (r matches Some(NavigationRequest::GoToAddRoom)),
        index == 2 ==> (r matches Some(NavigationRequest::OpenSettings)),
        index > 2 ==> r is None,
{
    match index {
        0 => Some(NavigationRequest::GoToHome),
        1 => Some(NavigationRequest::GoToAddRoom),
        2 => Some(NavigationRequest::OpenSettings),
        _ => None,
    }
}

/// The radio button that shows a tab as selected; none for a space (all
/// turn off).
pub fn radio_button_for_tab(tab: &SelectedTab) -> (r: Option<usize>)
    ensures
        r == match *tab {
            SelectedTab::Home => Some(0usize),
            SelectedTab::AddRoom => Some(1usize),
            SelectedTab::Settings => Some(2usize),
            SelectedTab::Space(_) => None,
        },
{
    match tab {
        SelectedTab::Home => Some(0),
        SelectedTab::AddRoom => Some(1),
        SelectedTab::Settings => Some(2),
        SelectedTab::Space(_) => None,
    }
}

} // verus!
