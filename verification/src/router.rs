//! The screen router: application state as one value, user interaction as an
//! event enum, and a single update function that performs the store mutation
//! an event calls for and then the screen transition.

use vstd::prelude::*;

use crate::snippet::Snippet;
use crate::snippet::SnippetView;
use crate::store::delete_spec;
use crate::store::Store;
use crate::store::toggle_spec;
use crate::store::update_spec;

verus! {

/// The active screen. `Edit` and `Detail` carry a snippet id that is looked
/// up fresh against the store on every entry, so a stale id resolves to a
/// "not found" view rather than failing.
#[derive(Clone)]
pub enum Screen {
    /// The snippet list with search and filter controls.
    Home,
    /// The form for a new snippet.
    Add,
    /// The form over the snippet with the carried id.
    Edit(String),
    /// The full view of the snippet with the carried id.
    Detail(String),
}

/// The mathematical value of a screen.
pub ghost enum ScreenView {
    Home,
    Add,
    Edit(Seq<char>),
    Detail(Seq<char>),
}

impl View for Screen {
    type V = ScreenView;

    open spec fn view(&self) -> ScreenView {
        match self {
            Screen::Home => ScreenView::Home,
            Screen::Add => ScreenView::Add,
            Screen::Edit(id) => ScreenView::Edit(id@),
            Screen::Detail(id) => ScreenView::Detail(id@),
        }
    }
}

/// A user-initiated event, dispatched to `AppState::handle_event`.
pub enum Event {
    /// The search field changed.
    SearchChanged(String),
    /// A language filter chip was selected; the empty string selects all.
    LanguageSelected(String),
    /// The add button was pressed.
    AddRequested,
    /// A snippet card was opened.
    ViewRequested(String),
    /// An edit button was pressed for the id.
    EditRequested(String),
    /// A delete button was pressed for the id.
    DeleteRequested(String),
    /// A favorite star was pressed for the id.
    FavoriteToggled(String),
    /// The add or edit form was submitted with the built snippet.
    SaveRequested(Snippet),
    /// The add or edit form was cancelled.
    CancelRequested,
    /// The back or home button was pressed.
    HomeRequested,
}

/// The mathematical value of an event.
pub ghost enum EventView {
    SearchChanged(Seq<char>),
    LanguageSelected(Seq<char>),
    AddRequested,
    ViewRequested(Seq<char>),
    EditRequested(Seq<char>),
    DeleteRequested(Seq<char>),
    FavoriteToggled(Seq<char>),
    SaveRequested(SnippetView),
    CancelRequested,
    HomeRequested,
}

impl View for Event {
    type V = EventView;

    open spec fn view(&self) -> EventView {
        match self {
            Event::SearchChanged(q) => EventView::SearchChanged(q@),
            Event::LanguageSelected(l) => EventView::LanguageSelected(l@),
            Event::AddRequested => EventView::AddRequested,
            Event::ViewRequested(id) => EventView::ViewRequested(id@),
            Event::EditRequested(id) => EventView::EditRequested(id@),
            Event::DeleteRequested(id) => EventView::DeleteRequested(id@),
            Event::FavoriteToggled(id) => EventView::FavoriteToggled(id@),
            Event::SaveRequested(s) => EventView::SaveRequested(s@),
            Event::CancelRequested => EventView::CancelRequested,
            Event::HomeRequested => EventView::HomeRequested,
        }
    }
}

/// The application state: the store and the transient view state around it.
pub struct AppState {
    /// The record store.
    pub store: Store,
    /// The active screen; `Home` initially.
    pub screen: Screen,
    /// The current search text; empty means no search.
    pub search_query: String,
    /// The selected language filter; empty means all languages.
    pub selected_language: String,
}

/// The mathematical value of the application state.
#[verifier::ext_equal]
pub ghost struct AppStateView {
    pub store: Seq<SnippetView>,
    pub screen: ScreenView,
    pub search_query: Seq<char>,
    pub selected_language: Seq<char>,
}

impl View for AppState {
    type V = AppStateView;

    open spec fn view(&self) -> AppStateView {
        AppStateView {
            store: self.store@,
            screen: self.screen@,
            search_query: self.search_query@,
            selected_language: self.selected_language@,
        }
    }
}

/// The state one event leads to. Saving applies the pending snippet to the
/// store as the active screen directs: the add form appends and returns
/// home, the edit form replaces the record carrying the snippet's id and
/// opens its detail view; deleting returns home; every other event only
/// retargets the screen or a filter field.
pub open spec fn step(s: AppStateView, e: EventView) -> AppStateView {
    match e {
        EventView::SearchChanged(q) => AppStateView { search_query: q, ..s },
        EventView::LanguageSelected(l) => AppStateView { selected_language: l, ..s },
        EventView::AddRequested => AppStateView { screen: ScreenView::Add, ..s },
        EventView::ViewRequested(id) => AppStateView { screen: ScreenView::Detail(id), ..s },
        EventView::EditRequested(id) => AppStateView { screen: ScreenView::Edit(id), ..s },
        EventView::DeleteRequested(id) => AppStateView {
            store: delete_spec(s.store, id),
            screen: ScreenView::Home,
            ..s
        },
        EventView::FavoriteToggled(id) => AppStateView { store: toggle_spec(s.store, id), ..s },
        EventView::SaveRequested(n) => match s.screen {
            ScreenView::Add => AppStateView {
                store: s.store.push(n),
                screen: ScreenView::Home,
                ..s
            },
            ScreenView::Edit(_) => AppStateView {
                store: update_spec(s.store, n.id, n),
                screen: ScreenView::Detail(n.id),
                ..s
            },
            _ => s,
        },
        EventView::CancelRequested => AppStateView { screen: ScreenView::Home, ..s },
        EventView::HomeRequested => AppStateView { screen: ScreenView::Home, ..s },
    }
}

impl AppState {
    /// The initial state over the given store: the home screen, no search
    /// text, no language filter.
    pub fn new(store: Store) -> (r: AppState)
        ensures
            r@.store == store@,
            r@.screen == ScreenView::Home,
            r@.search_query.len() == 0,
            r@.selected_language.len() == 0,
    {
        AppState {
            store,
            screen: Screen::Home,
            search_query: String::new(),
            selected_language: String::new(),
        }
    }

    /// Applies one user event: the store mutation it calls for, then the
    /// screen transition, as `step` states.
    pub fn handle_event(&mut self, e: Event)
        ensures
            final(self)@ == step(old(self)@, e@),
    {
        match e {
            Event::SearchChanged(q) => {
                self.search_query = q;
            },
            Event::LanguageSelected(l) => {
                self.selected_language = l;
            },
            Event::AddRequested => {
                self.screen = Screen::Add;
            },
            Event::ViewRequested(id) => {
                self.screen = Screen::Detail(id);
            },
            Event::EditRequested(id) => {
                self.screen = Screen::Edit(id);
            },
            Event::DeleteRequested(id) => {
                self.store.delete(id.as_str());
                self.screen = Screen::Home;
            },
            Event::FavoriteToggled(id) => {
                self.store.toggle_favorite(id.as_str());
            },
            Event::SaveRequested(n) => {
                let on_add = matches!(self.screen, Screen::Add);
                let on_edit = matches!(self.screen, Screen::Edit(_));
                if on_add {
                    self.store.create(n);
                    self.screen = Screen::Home;
                } else if on_edit {
                    let id = n.id.clone();
                    self.store.update(id.as_str(), n);
                    self.screen = Screen::Detail(id);
                }
            },
            Event::CancelRequested => {
                self.screen = Screen::Home;
            },
            Event::HomeRequested => {
                self.screen = Screen::Home;
            },
        }
        proof {
            assert(self@ =~= step(old(self)@, e@));
        }
    }
}

} // verus!
