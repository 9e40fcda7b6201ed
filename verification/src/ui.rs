//! The decisions of the game's screens: which overlay a click outside or Escape closes, the side buttons' pages,
//! the keyboard shortcuts, the first-time tutorial, the Bag's sort and filters, the "Are you sure?" buttons, the
//! mouse wheel, the leaderboard's fetches and the titles.
use vstd::prelude::*;
use crate::text::str_eq;
use crate::num::euclid_mod;

verus! {

/// The keys the game reacts to (everything else is `Other`).
#[derive(Clone, Copy, PartialEq, Eq, Debug, Structural)]
pub enum Key {
    Escape,
    AcBack,
    Return,
    KpEnter,
    Space,
    Left,
    Right,
    F11,
    F,
    E,
    P,
    C,
    U,
    T,
    I,
    B,
    M,
    V,
    Other,
}

/// The screen the game is on.
#[derive(Clone, Copy, PartialEq, Eq, Debug, Structural)]
pub enum Screen {
    Title,
    Saves,
    Account,
    Game,
}

/// The pages and pop-ups that can be open over the screen.
#[derive(Clone, Copy, PartialEq, Eq, Debug, Structural)]
pub enum Overlay {
    Sell,
    Evolve,
    AdminMenu,
    BanAdmin,
    EventAdmin,
    Friends,
    Feedback,
    Leaderboard,
    Options,
    Stats,
    Credits,
    UpdateLog,
    Traits,
    Index,
    Shop,
    Rebirth,
    /// the Bag page (the left panel)
    Bag,
    /// the right side panel (Upgrades, Milestones, Quests)
    RightPanel,
}

/// What is open right now.
#[derive(Clone, Copy, PartialEq, Eq, Debug, Structural)]
pub struct OpenOverlays {
    pub screen: Screen,
    pub sell: bool,
    pub evolve: bool,
    pub admin_menu: bool,
    pub ban_admin: bool,
    pub event_admin: bool,
    pub friends: bool,
    pub feedback: bool,
    pub leaderboard: bool,
    pub options: bool,
    pub stats: bool,
    pub credits: bool,
    pub update_log: bool,
    pub traits: bool,
    pub index: bool,
    pub shop: bool,
    pub rebirth: bool,
    /// the Rebirth page's "Are you sure?" is showing
    pub rebirth_confirm: bool,
    pub bag: bool,
    pub right_panel: bool,
}

/// A click outside any button closes the top-most overlay, in this order; the game's own pages only on the game
/// screen.
pub open spec fn spec_outside_click(o: OpenOverlays) -> Option<Overlay> {
    let game = o.screen == Screen::Game;
    if o.sell {
        Some(Overlay::Sell)
    } else if o.evolve {
        Some(Overlay::Evolve)
    } else if o.admin_menu {
        Some(Overlay::AdminMenu)
    } else if o.ban_admin {
        Some(Overlay::BanAdmin)
    } else if o.event_admin {
        Some(Overlay::EventAdmin)
    } else if o.friends {
        Some(Overlay::Friends)
    } else if o.feedback {
        Some(Overlay::Feedback)
    } else if o.leaderboard {
        Some(Overlay::Leaderboard)
    } else if o.options {
        Some(Overlay::Options)
    } else if o.stats {
        Some(Overlay::Stats)
    } else if o.credits {
        Some(Overlay::Credits)
    } else if o.update_log {
        Some(Overlay::UpdateLog)
    } else if o.traits && game {
        Some(Overlay::Traits)
    } else if o.index && game {
        Some(Overlay::Index)
    } else if o.shop && game {
        Some(Overlay::Shop)
    } else if o.rebirth && game {
        Some(Overlay::Rebirth)
    } else if o.bag && game {
        Some(Overlay::Bag)
    } else {
        None
    }
}

/// Is this overlay open?
pub open spec fn is_open(o: OpenOverlays, which: Overlay) -> bool {
    match which {
        Overlay::Sell => o.sell,
        Overlay::Evolve => o.evolve,
        Overlay::AdminMenu => o.admin_menu,
        Overlay::BanAdmin => o.ban_admin,
        Overlay::EventAdmin => o.event_admin,
        Overlay::Friends => o.friends,
        Overlay::Feedback => o.feedback,
        Overlay::Leaderboard => o.leaderboard,
        Overlay::Options => o.options,
        Overlay::Stats => o.stats,
        Overlay::Credits => o.credits,
        Overlay::UpdateLog => o.update_log,
        Overlay::Traits => o.traits,
        Overlay::Index => o.index,
        Overlay::Shop => o.shop,
        Overlay::Rebirth => o.rebirth,
        Overlay::Bag => o.bag,
        Overlay::RightPanel => o.right_panel,
    }
}

/// The overlay a click outside every button closes, None if nothing closes (then
/// no click sound plays either).
pub fn overlay_to_close(o: &OpenOverlays) -> (r: Option<Overlay>)
    ensures
        r == spec_outside_click(*o),
        r matches Some(w) ==> is_open(*o, w),
{
    let game = o.screen == Screen::Game;
    if o.sell {
        Some(Overlay::Sell)
    } else if o.evolve {
        Some(Overlay::Evolve)
    } else if o.admin_menu {
        Some(Overlay::AdminMenu)
    } else if o.ban_admin {
        Some(Overlay::BanAdmin)
    } else if o.event_admin {
        Some(Overlay::EventAdmin)
    } else if o.friends {
        Some(Overlay::Friends)
    } else if o.feedback {
        Some(Overlay::Feedback)
    } else if o.leaderboard {
        Some(Overlay::Leaderboard)
    } else if o.options {
        Some(Overlay::Options)
    } else if o.stats {
        Some(Overlay::Stats)
    } else if o.credits {
        Some(Overlay::Credits)
    } else if o.update_log {
        Some(Overlay::UpdateLog)
    } else if o.traits && game {
        Some(Overlay::Traits)
    } else if o.index && game {
        Some(Overlay::Index)
    } else if o.shop && game {
        Some(Overlay::Shop)
    } else if o.rebirth && game {
        Some(Overlay::Rebirth)
    } else if o.bag && game {
        Some(Overlay::Bag)
    } else {
        None
    }
}

/// Everything `close_overlays` closes: every pop-up and full page, and the Rebirth page's "Are you sure?" (the
/// Bag and the right panel stay).
pub open spec fn spec_closed_all(o: OpenOverlays) -> OpenOverlays {
    OpenOverlays {
        sell: false,
        evolve: false,
        admin_menu: false,
        ban_admin: false,
        event_admin: false,
        friends: false,
        feedback: false,
        leaderboard: false,
        options: false,
        stats: false,
        credits: false,
        update_log: false,
        traits: false,
        index: false,
        shop: false,
        rebirth: false,
        rebirth_confirm: false,
        ..o
    }
}

/// Closes every pop-up and full page before another one opens.
pub fn close_overlays(o: &OpenOverlays) -> (r: OpenOverlays)
    ensures
        r == spec_closed_all(*o),
{
    OpenOverlays {
        sell: false,
        evolve: false,
        admin_menu: false,
        ban_admin: false,
        event_admin: false,
        friends: false,
        feedback: false,
        leaderboard: false,
        options: false,
        stats: false,
        credits: false,
        update_log: false,
        traits: false,
        index: false,
        shop: false,
        rebirth: false,
        rebirth_confirm: false,
        ..*o
    }
}

/// The full pages of the side buttons.
#[derive(Clone, Copy, PartialEq, Eq, Debug, Structural)]
pub enum Page {
    Traits,
    Index,
    Shop,
    Rebirth,
}

/// The overlay a page is.
pub open spec fn page_overlay(p: Page) -> Overlay {
    match p {
        Page::Traits => Overlay::Traits,
        Page::Index => Overlay::Index,
        Page::Shop => Overlay::Shop,
        Page::Rebirth => Overlay::Rebirth,
    }
}

/// `o` with only this page's flag set to `on` (the Rebirth page's "Are you sure?" goes with it).
pub open spec fn with_page(o: OpenOverlays, p: Page, on: bool) -> OpenOverlays {
    match p {
        Page::Traits => OpenOverlays { traits: on, ..o },
        Page::Index => OpenOverlays { index: on, ..o },
        Page::Shop => OpenOverlays { shop: on, ..o },
        Page::Rebirth => OpenOverlays { rebirth: on, rebirth_confirm: false, ..o },
    }
}

/// A side button of a full page: an open page closes; a closed one opens over nothing else (every pop-up and
/// page closes, and so do the Bag and the right panel), except the Shop before it is unlocked (nothing changes,
/// a toast says when it opens).
pub open spec fn spec_toggle_page(o: OpenOverlays, p: Page, shop_unlocked: bool) -> OpenOverlays {
    if is_open(o, page_overlay(p)) {
        with_page(o, p, false)
    } else if p == Page::Shop && !shop_unlocked {
        o
    } else {
        with_page(OpenOverlays { bag: false, right_panel: false, ..spec_closed_all(o) }, p, true)
    }
}

/// The Traits, Index, Shop and Rebirth buttons.
pub fn toggle_page(o: &OpenOverlays, p: Page, shop_unlocked: bool) -> (r: OpenOverlays)
    ensures
        r == spec_toggle_page(*o, p, shop_unlocked),
{
    let open = match p {
        Page::Traits => o.traits,
        Page::Index => o.index,
        Page::Shop => o.shop,
        Page::Rebirth => o.rebirth,
    };
    if open {
        return match p {
            Page::Traits => OpenOverlays { traits: false, ..*o },
            Page::Index => OpenOverlays { index: false, ..*o },
            Page::Shop => OpenOverlays { shop: false, ..*o },
            Page::Rebirth => OpenOverlays { rebirth: false, rebirth_confirm: false, ..*o },
        };
    }
    if p == Page::Shop && !shop_unlocked {
        return *o;
    }
    let c = close_overlays(o);
    let c = OpenOverlays { bag: false, right_panel: false, ..c };
    match p {
        Page::Traits => OpenOverlays { traits: true, ..c },
        Page::Index => OpenOverlays { index: true, ..c },
        Page::Shop => OpenOverlays { shop: true, ..c },
        Page::Rebirth => OpenOverlays { rebirth: true, rebirth_confirm: false, ..c },
    }
}

/// The screen with nothing open over it but this page.
pub open spec fn only_page(screen: Screen, p: Page) -> OpenOverlays {
    OpenOverlays {
        screen: screen,
        sell: false,
        evolve: false,
        admin_menu: false,
        ban_admin: false,
        event_admin: false,
        friends: false,
        feedback: false,
        leaderboard: false,
        options: false,
        stats: false,
        credits: false,
        update_log: false,
        traits: p == Page::Traits,
        index: p == Page::Index,
        shop: p == Page::Shop,
        rebirth: p == Page::Rebirth,
        rebirth_confirm: false,
        bag: false,
        right_panel: false,
    }
}

/// A page opened by its button is the only thing open over the screen, and pressing the button again closes that
/// page and nothing else.
pub proof fn law_a_page_opens_alone(o: OpenOverlays, p: Page, shop_unlocked: bool)
    ensures
        !is_open(o, page_overlay(p)) && (p != Page::Shop || shop_unlocked) ==> spec_toggle_page(o, p, shop_unlocked) == only_page(o.screen, p),
        is_open(o, page_overlay(p)) ==> spec_toggle_page(o, p, shop_unlocked) == with_page(o, p, false),
{
}

/// What Escape does.
#[derive(Clone, Copy, PartialEq, Eq, Debug, Structural)]
pub enum EscapeAction {
    /// leave the account screen
    CloseAccount,
    /// close this overlay
    Close(Overlay),
    /// from the Saves screen back to the title
    BackToTitle,
    Nothing,
}

/// Escape (or Android's back) closes the top-most thing, in this order.
pub open spec fn spec_escape(o: OpenOverlays) -> EscapeAction {
    if o.screen == Screen::Account {
        EscapeAction::CloseAccount
    } else if o.admin_menu {
        EscapeAction::Close(Overlay::AdminMenu)
    } else if o.event_admin {
        EscapeAction::Close(Overlay::EventAdmin)
    } else if o.friends {
        EscapeAction::Close(Overlay::Friends)
    } else if o.feedback {
        EscapeAction::Close(Overlay::Feedback)
    } else if o.leaderboard {
        EscapeAction::Close(Overlay::Leaderboard)
    } else if o.options {
        EscapeAction::Close(Overlay::Options)
    } else if o.stats {
        EscapeAction::Close(Overlay::Stats)
    } else if o.credits {
        EscapeAction::Close(Overlay::Credits)
    } else if o.update_log {
        EscapeAction::Close(Overlay::UpdateLog)
    } else if o.screen == Screen::Saves {
        EscapeAction::BackToTitle
    } else if o.screen == Screen::Title {
        EscapeAction::Nothing
    } else if o.traits {
        EscapeAction::Close(Overlay::Traits)
    } else if o.index {
        EscapeAction::Close(Overlay::Index)
    } else if o.shop {
        EscapeAction::Close(Overlay::Shop)
    } else if o.rebirth {
        EscapeAction::Close(Overlay::Rebirth)
    } else if o.right_panel {
        EscapeAction::Close(Overlay::RightPanel)
    } else if o.bag {
        EscapeAction::Close(Overlay::Bag)
    } else {
        EscapeAction::Nothing
    }
}

/// The pop-ups Escape closes, top-most first.
pub open spec fn escape_popups() -> Seq<Overlay> {
    seq![
        Overlay::AdminMenu,
        Overlay::EventAdmin,
        Overlay::Friends,
        Overlay::Feedback,
        Overlay::Leaderboard,
        Overlay::Options,
        Overlay::Stats,
        Overlay::Credits,
        Overlay::UpdateLog,
    ]
}

/// The game screen's pages Escape closes, top-most first.
pub open spec fn escape_pages() -> Seq<Overlay> {
    seq![Overlay::Traits, Overlay::Index, Overlay::Shop, Overlay::Rebirth, Overlay::RightPanel, Overlay::Bag]
}

/// Among `order`, the one at k is open and none before it is.
pub open spec fn first_open(o: OpenOverlays, order: Seq<Overlay>, k: int) -> bool {
    &&& 0 <= k < order.len()
    &&& is_open(o, order[k])
    &&& forall|j: int| 0 <= j < k ==> !is_open(o, #[trigger] order[j])
}

/// None of `order` is open.
pub open spec fn none_open(o: OpenOverlays, order: Seq<Overlay>) -> bool {
    forall|j: int| 0 <= j < order.len() ==> !is_open(o, #[trigger] order[j])
}

/// Escape closes the top-most thing: on the account screen it leaves it; else the top-most open pop-up (the admin
/// menu, the event admin, Friends, Feedback, the leaderboard, Options, Stats, Credits, the Update Log, in that
/// order); with none open, on the Saves screen it goes back to the title and on the title it does nothing; in the
/// game it closes the top-most page (Traits, Index, Shop, Rebirth, the right panel, then the Bag), and with nothing
/// open it does nothing.
pub proof fn law_escape_closes_the_top_one(o: OpenOverlays, k: int)
    ensures
        o.screen == Screen::Account ==> spec_escape(o) == EscapeAction::CloseAccount,
        o.screen != Screen::Account && first_open(o, escape_popups(), k) ==> spec_escape(o) == EscapeAction::Close(escape_popups()[k]),
        o.screen == Screen::Saves && none_open(o, escape_popups()) ==> spec_escape(o) == EscapeAction::BackToTitle,
        o.screen == Screen::Title && none_open(o, escape_popups()) ==> spec_escape(o) == EscapeAction::Nothing,
        o.screen == Screen::Game && none_open(o, escape_popups()) && first_open(o, escape_pages(), k) ==> spec_escape(o)
            == EscapeAction::Close(escape_pages()[k]),
        o.screen == Screen::Game && none_open(o, escape_popups()) && none_open(o, escape_pages()) ==> spec_escape(o)
            == EscapeAction::Nothing,
{
    let p = escape_popups();
    let g = escape_pages();
    assert(p[0] == Overlay::AdminMenu && p[1] == Overlay::EventAdmin && p[2] == Overlay::Friends && p[3] == Overlay::Feedback
        && p[4] == Overlay::Leaderboard && p[5] == Overlay::Options && p[6] == Overlay::Stats && p[7] == Overlay::Credits
        && p[8] == Overlay::UpdateLog);
    assert(g[0] == Overlay::Traits && g[1] == Overlay::Index && g[2] == Overlay::Shop && g[3] == Overlay::Rebirth
        && g[4] == Overlay::RightPanel && g[5] == Overlay::Bag);
    if none_open(o, p) {
        assert(!is_open(o, p[0]) && !is_open(o, p[1]) && !is_open(o, p[2]) && !is_open(o, p[3]) && !is_open(o, p[4])
            && !is_open(o, p[5]) && !is_open(o, p[6]) && !is_open(o, p[7]) && !is_open(o, p[8]));
    }
    if none_open(o, g) {
        assert(!is_open(o, g[0]) && !is_open(o, g[1]) && !is_open(o, g[2]) && !is_open(o, g[3]) && !is_open(o, g[4])
            && !is_open(o, g[5]));
    }
    if first_open(o, p, k) {
        assert(forall|j: int| 0 <= j < k ==> !is_open(o, #[trigger] p[j]));
        if k > 0 { assert(!is_open(o, p[0])); }
        if k > 1 { assert(!is_open(o, p[1])); }
        if k > 2 { assert(!is_open(o, p[2])); }
        if k > 3 { assert(!is_open(o, p[3])); }
        if k > 4 { assert(!is_open(o, p[4])); }
        if k > 5 { assert(!is_open(o, p[5])); }
        if k > 6 { assert(!is_open(o, p[6])); }
        if k > 7 { assert(!is_open(o, p[7])); }
    }
    if first_open(o, g, k) {
        if k > 0 { assert(!is_open(o, g[0])); }
        if k > 1 { assert(!is_open(o, g[1])); }
        if k > 2 { assert(!is_open(o, g[2])); }
        if k > 3 { assert(!is_open(o, g[3])); }
        if k > 4 { assert(!is_open(o, g[4])); }
    }
}

/// The pop-ups a click outside closes, top-most first.
pub open spec fn click_popups() -> Seq<Overlay> {
    seq![
        Overlay::Sell,
        Overlay::Evolve,
        Overlay::AdminMenu,
        Overlay::BanAdmin,
        Overlay::EventAdmin,
        Overlay::Friends,
        Overlay::Feedback,
        Overlay::Leaderboard,
        Overlay::Options,
        Overlay::Stats,
        Overlay::Credits,
        Overlay::UpdateLog,
    ]
}

/// The game screen's pages a click outside closes, top-most first.
pub open spec fn click_pages() -> Seq<Overlay> {
    seq![Overlay::Traits, Overlay::Index, Overlay::Shop, Overlay::Rebirth, Overlay::Bag]
}

/// A click outside everything closes the top-most open pop-up (the Sell page, Evolve, the admin menu, the ban
/// admin, the event admin, Friends, Feedback, the leaderboard, Options, Stats, Credits, the Update Log, in that
/// order); with none open, on the game screen, the top-most open page (Traits, Index, Shop, Rebirth, then the
/// Bag); else nothing (the right panel stays).
pub proof fn law_outside_click_closes_the_top_one(o: OpenOverlays, k: int)
    ensures
        first_open(o, click_popups(), k) ==> spec_outside_click(o) == Some(click_popups()[k]),
        none_open(o, click_popups()) && o.screen == Screen::Game && first_open(o, click_pages(), k) ==> spec_outside_click(o)
            == Some(click_pages()[k]),
        none_open(o, click_popups()) && (o.screen != Screen::Game || none_open(o, click_pages())) ==> spec_outside_click(o)
            is None,
{
    let p = click_popups();
    let g = click_pages();
    assert(p[0] == Overlay::Sell && p[1] == Overlay::Evolve && p[2] == Overlay::AdminMenu && p[3] == Overlay::BanAdmin
        && p[4] == Overlay::EventAdmin && p[5] == Overlay::Friends && p[6] == Overlay::Feedback && p[7] == Overlay::Leaderboard
        && p[8] == Overlay::Options && p[9] == Overlay::Stats && p[10] == Overlay::Credits && p[11] == Overlay::UpdateLog);
    assert(g[0] == Overlay::Traits && g[1] == Overlay::Index && g[2] == Overlay::Shop && g[3] == Overlay::Rebirth
        && g[4] == Overlay::Bag);
    if none_open(o, p) {
        assert(!is_open(o, p[0]) && !is_open(o, p[1]) && !is_open(o, p[2]) && !is_open(o, p[3]) && !is_open(o, p[4])
            && !is_open(o, p[5]) && !is_open(o, p[6]) && !is_open(o, p[7]) && !is_open(o, p[8]) && !is_open(o, p[9])
            && !is_open(o, p[10]) && !is_open(o, p[11]));
    }
    if none_open(o, g) {
        assert(!is_open(o, g[0]) && !is_open(o, g[1]) && !is_open(o, g[2]) && !is_open(o, g[3]) && !is_open(o, g[4]));
    }
    if first_open(o, p, k) {
        if k > 0 { assert(!is_open(o, p[0])); }
        if k > 1 { assert(!is_open(o, p[1])); }
        if k > 2 { assert(!is_open(o, p[2])); }
        if k > 3 { assert(!is_open(o, p[3])); }
        if k > 4 { assert(!is_open(o, p[4])); }
        if k > 5 { assert(!is_open(o, p[5])); }
        if k > 6 { assert(!is_open(o, p[6])); }
        if k > 7 { assert(!is_open(o, p[7])); }
        if k > 8 { assert(!is_open(o, p[8])); }
        if k > 9 { assert(!is_open(o, p[9])); }
        if k > 10 { assert(!is_open(o, p[10])); }
    }
    if first_open(o, g, k) {
        if k > 0 { assert(!is_open(o, g[0])); }
        if k > 1 { assert(!is_open(o, g[1])); }
        if k > 2 { assert(!is_open(o, g[2])); }
        if k > 3 { assert(!is_open(o, g[3])); }
    }
}

/// What Escape closes.
pub fn escape_action(o: &OpenOverlays) -> (r: EscapeAction)
    ensures
        r == spec_escape(*o),
        r matches EscapeAction::Close(w) ==> is_open(*o, w),
{
    if o.screen == Screen::Account {
        EscapeAction::CloseAccount
    } else if o.admin_menu {
        EscapeAction::Close(Overlay::AdminMenu)
    } else if o.event_admin {
        EscapeAction::Close(Overlay::EventAdmin)
    } else if o.friends {
        EscapeAction::Close(Overlay::Friends)
    } else if o.feedback {
        EscapeAction::Close(Overlay::Feedback)
    } else if o.leaderboard {
        EscapeAction::Close(Overlay::Leaderboard)
    } else if o.options {
        EscapeAction::Close(Overlay::Options)
    } else if o.stats {
        EscapeAction::Close(Overlay::Stats)
    } else if o.credits {
        EscapeAction::Close(Overlay::Credits)
    } else if o.update_log {
        EscapeAction::Close(Overlay::UpdateLog)
    } else if o.screen == Screen::Saves {
        EscapeAction::BackToTitle
    } else if o.screen == Screen::Title {
        EscapeAction::Nothing
    } else if o.traits {
        EscapeAction::Close(Overlay::Traits)
    } else if o.index {
        EscapeAction::Close(Overlay::Index)
    } else if o.shop {
        EscapeAction::Close(Overlay::Shop)
    } else if o.rebirth {
        EscapeAction::Close(Overlay::Rebirth)
    } else if o.right_panel {
        EscapeAction::Close(Overlay::RightPanel)
    } else if o.bag {
        EscapeAction::Close(Overlay::Bag)
    } else {
        EscapeAction::Nothing
    }
}

/// The panels the letter keys open on the game screen.
#[derive(Clone, Copy, PartialEq, Eq, Debug, Structural)]
pub enum Shortcut {
    /// U or T: the Upgrades panel
    Tree,
    /// I: the Index page
    Index,
    /// B: the Bag
    Bag,
    /// M: the Milestones panel
    Milestones,
}

/// The letter keys work only on the game screen with nothing else open.
pub open spec fn spec_shortcut(key: Key, blocked: bool) -> Option<Shortcut> {
    if blocked {
        None
    } else {
        match key {
            Key::U | Key::T => Some(Shortcut::Tree),
            Key::I => Some(Shortcut::Index),
            Key::B => Some(Shortcut::Bag),
            Key::M => Some(Shortcut::Milestones),
            _ => None,
        }
    }
}

/// The panel a letter key opens; `blocked` = a page or pop-up is open, or the screen isn't the game.
pub fn shortcut(key: Key, blocked: bool) -> (r: Option<Shortcut>)
    ensures
        r == spec_shortcut(key, blocked),
{
    if blocked {
        return None;
    }
    match key {
        Key::U | Key::T => Some(Shortcut::Tree),
        Key::I => Some(Shortcut::Index),
        Key::B => Some(Shortcut::Bag),
        Key::M => Some(Shortcut::Milestones),
        _ => None,
    }
}

/// F11, or Ctrl+F, switches fullscreen.
pub fn is_fullscreen_toggle(key: Key, ctrl: bool) -> (b: bool)
    ensures
        b == (key == Key::F11 || (key == Key::F && ctrl)),
{
    key == Key::F11 || (key == Key::F && ctrl)
}

// ---------------------------------------------------------------- the tutorial

/// How many steps the first-time tutorial has.
pub const TUTORIAL_STEPS: usize = 13;

/// The step after `step`; the last one ends the tutorial (None, and `ended`).
pub open spec fn spec_tutorial_next(step: Option<usize>) -> (Option<usize>, bool) {
    match step {
        Some(i) => if i + 1 < TUTORIAL_STEPS { (Some((i + 1) as usize), false) } else { (None, true) },
        None => (None, false),
    }
}

/// Next (Enter / Right / the Next button): the next step, or the end after the last one.
pub fn tutorial_next(step: Option<usize>) -> (r: (Option<usize>, bool))
    ensures
        r == spec_tutorial_next(step),
{
    match step {
        Some(i) => if i < TUTORIAL_STEPS - 1 { (Some(i + 1), false) } else { (None, true) },
        None => (None, false),
    }
}

/// Back (Left / the Back button): the step before (the first stays the first).
pub fn tutorial_back(step: Option<usize>) -> (r: Option<usize>)
    ensures
        r == match step {
            Some(i) => Some(if i > 0 { (i - 1) as usize } else { 0 }),
            None => None,
        },
{
    match step {
        Some(i) => Some(if i > 0 { i - 1 } else { 0 }),
        None => None,
    }
}

/// What a key does while the tutorial shows: (the new step, whether it ended, whether the key was used).
pub open spec fn spec_tutorial_key(step: Option<usize>, key: Key) -> (Option<usize>, bool, bool) {
    if step is None {
        (None, false, false)
    } else {
        match key {
            Key::Escape => (None, true, true),
            Key::Return | Key::KpEnter | Key::Right | Key::Space => {
                let n = spec_tutorial_next(step);
                (n.0, n.1, true)
            },
            Key::Left => (Some(if step->0 > 0 { (step->0 - 1) as usize } else { 0 }), false, true),
            _ => (step, false, true),
        }
    }
}

/// Keys while the tutorial is up: Enter / Right / Space = next, Left = back, Esc = skip; it takes every key.
pub fn tutorial_key(step: Option<usize>, key: Key) -> (r: (Option<usize>, bool, bool))
    ensures
        r == spec_tutorial_key(step, key),
{
    if step.is_none() {
        return (None, false, false);
    }
    match key {
        Key::Escape => (None, true, true),
        Key::Return | Key::KpEnter | Key::Right | Key::Space => {
            let (n, ended) = tutorial_next(step);
            (n, ended, true)
        },
        Key::Left => (tutorial_back(step), false, true),
        _ => (step, false, true),
    }
}

/// Next then Back comes back to the same step (before the last one), and Back then Next too (after the first).
pub proof fn law_tutorial_next_back(i: usize)
    requires
        i < TUTORIAL_STEPS,
    ensures
        i + 1 < TUTORIAL_STEPS ==> spec_tutorial_key(spec_tutorial_key(Some(i), Key::Right).0, Key::Left).0 == Some(i),
        i > 0 ==> spec_tutorial_key(spec_tutorial_key(Some(i), Key::Left).0, Key::Right).0 == Some(i),
        spec_tutorial_key(Some(i), Key::Right).0 matches Some(j) ==> j < TUTORIAL_STEPS,
{
}

// ---------------------------------------------------------------- the Bag

/// The Inventory's sorts, in the order the Sort button goes through them.
pub open spec fn inv_sorts() -> Seq<Seq<char>> {
    seq!["money"@, "rarity"@, "mutation"@, "quantity"@]
}

/// The Inventory's mutation filters, in the order the arrows go through them.
pub open spec fn inv_mut_filters() -> Seq<Seq<char>> {
    seq!["all"@, "normal"@, "golden"@, "diamond"@, "rainbow"@]
}

/// Where `k` is in `list` (its first place), 0 when it isn't there.
pub open spec fn position_or_first(list: Seq<Seq<char>>, k: Seq<char>) -> int {
    if exists|i: int| 0 <= i < list.len() && list[i] == k {
        choose|i: int| 0 <= i < list.len() && list[i] == k && forall|j: int| 0 <= j < i ==> list[j] != k
    } else {
        0
    }
}

fn position_in(list: &Vec<&'static str>, k: &str) -> (r: usize)
    requires
        list@.len() > 0,
    ensures
        r < list@.len(),
        r == position_or_first(list@.map_values(|s: &'static str| s@), k@),
{
    let ghost lv = list@.map_values(|s: &'static str| s@);
    let mut i: usize = 0;
    while i < list.len()
        invariant
            lv == list@.map_values(|s: &'static str| s@),
            i <= list@.len(),
            forall|j: int| 0 <= j < i ==> lv[j] != k@,
        decreases list@.len() - i,
    {
        if str_eq(list[i], k) {
            proof {
                let c = choose|c: int| 0 <= c < lv.len() && lv[c] == k@ && forall|j: int| 0 <= j < c ==> lv[j] != k@;
                assert(lv[i as int] == k@);
                if c < i {
                } else if c > i {
                    assert(lv[i as int] != k@);
                }
            }
            return i;
        }
        i = i + 1;
    }
    0
}

fn sort_names() -> (v: Vec<&'static str>)
    ensures
        v@.len() == 4,
        v@.map_values(|s: &'static str| s@) == inv_sorts(),
{
    let v = vec!["money", "rarity", "mutation", "quantity"];
    proof {
        assert(v@.map_values(|s: &'static str| s@) =~= inv_sorts());
    }
    v
}

fn mut_filter_names() -> (v: Vec<&'static str>)
    ensures
        v@.len() == 5,
        v@.map_values(|s: &'static str| s@) == inv_mut_filters(),
{
    let v = vec!["all", "normal", "golden", "diamond", "rainbow"];
    proof {
        assert(v@.map_values(|s: &'static str| s@) =~= inv_mut_filters());
    }
    v
}

/// The Sort button: the next sort after `cur` (an unknown one counts as the first).
pub fn cycle_inv_sort(cur: &str) -> (r: &'static str)
    ensures
        r@ == inv_sorts()[(position_or_first(inv_sorts(), cur@) + 1) % 4],
{
    let v = sort_names();
    let i = position_in(&v, cur);
    let r = v[(i + 1) % 4];
    proof {
        assert(v@.map_values(|s: &'static str| s@)[((i + 1) % 4) as int] == r@);
    }
    r
}

/// The mutation filter `step` places after `cur`, going round (an unknown one counts as the first).
pub fn step_inv_mut(cur: &str, step: i64) -> (r: &'static str)
    requires
        i64::MIN <= position_or_first(inv_mut_filters(), cur@) + step <= i64::MAX,
    ensures
        r@ == inv_mut_filters()[(position_or_first(inv_mut_filters(), cur@) + step) % 5],
{
    let v = mut_filter_names();
    let pos = position_in(&v, cur) as i64;
    let k = euclid_mod(pos as i128 + step as i128, 5);
    let r = v[k as usize];
    proof {
        assert(v@.map_values(|s: &'static str| s@)[k as int] == r@);
    }
    r
}


/// Stepping the mutation filter forward then back (or back then forward) returns to the same filter.
pub proof fn law_step_inv_mut_round_trip(k: int, step: int)
    requires
        0 <= k < 5,
    ensures
        ((k + step) % 5 - step) % 5 == k,
{
    assert(((k + step) % 5 - step) % 5 == k) by (nonlinear_arith)
        requires
            0 <= k < 5,
    {
        let q = (k + step) / 5;
        assert(k + step == 5 * q + (k + step) % 5);
        assert((k + step) % 5 - step == k - 5 * q);
        assert((k - 5 * q) % 5 == k);
    }
}

/// The rarity filter: None (all) then each tier, going round `step` places (an unknown one counts as None).
pub open spec fn spec_step_inv_tier(cur: Option<usize>, step: int, n_tiers: int) -> Option<usize> {
    let pos = match cur {
        None => 0,
        Some(t) => if t < n_tiers { t + 1 } else { 0 },
    };
    let k = (pos + step) % (n_tiers + 1);
    if k == 0 { None } else { Some((k - 1) as usize) }
}

/// The rarity filter's arrows: `step` places from `cur` among All and the `n_tiers` tiers, going round.
pub fn step_inv_tier(cur: Option<usize>, step: i64, n_tiers: usize) -> (r: Option<usize>)
    requires
        n_tiers < i64::MAX,
        i64::MIN <= n_tiers + step <= i64::MAX,
        i64::MIN <= step,
    ensures
        r == spec_step_inv_tier(cur, step as int, n_tiers as int),
{
    let len = (n_tiers as i64) + 1;
    let pos: i64 = match cur {
        None => 0,
        Some(t) => if t < n_tiers { (t as i64) + 1 } else { 0 },
    };
    let k = euclid_mod(pos as i128 + step as i128, len as i128);
    if k == 0 { None } else { Some((k - 1) as usize) }
}

/// The Bag's switch: Inventory <-> Equipped (from Potions it goes to the Inventory).
pub fn toggle_bag_view(cur: &str) -> (r: &'static str)
    ensures
        r@ == if cur@ == "inventory"@ { "equipped"@ } else { "inventory"@ },
{
    if str_eq(cur, "inventory") { "equipped" } else { "inventory" }
}

/// The Bag's Potions button: Potions <-> Equipped.
pub fn show_bag_potions(cur: &str) -> (r: &'static str)
    ensures
        r@ == if cur@ == "potions"@ { "equipped"@ } else { "potions"@ },
{
    if str_eq(cur, "potions") { "equipped" } else { "potions" }
}

/// A button with an "Are you sure?" step.
#[derive(Clone, Copy, PartialEq, Eq, Debug, Structural)]
pub enum Click {
    /// it can't be done now: nothing happens
    Ignored,
    /// first click: it now asks "Are you sure?" (for a few seconds)
    AskConfirm,
    /// second click in time: do it
    Go,
}

/// Sell, Rebirth, Prestige, Reset everyone: nothing when it can't be done, else the 1st click asks and the 2nd
/// (while it's still asking) does it.
pub fn confirm_click(available: bool, confirming: bool) -> (r: Click)
    ensures
        r == if !available { Click::Ignored } else if !confirming { Click::AskConfirm } else { Click::Go },
{
    if !available {
        Click::Ignored
    } else if !confirming {
        Click::AskConfirm
    } else {
        Click::Go
    }
}

/// Deleting a save slot: the 1st click on a slot asks (Some(slot) = asking), the 2nd on the same slot deletes it
/// (and stops asking). Returns (delete it now, the slot now asking).
pub fn request_delete(slot: i64, asking: Option<i64>) -> (r: (bool, Option<i64>))
    ensures
        r == if asking == Some(slot) { (true, None::<i64>) } else { (false, Some(slot)) },
{
    if asking == Some(slot) { (true, None) } else { (false, Some(slot)) }
}

/// The theme button: the next theme mode after `cur` in `modes` (going round; an unknown one goes to the first).
pub open spec fn spec_next_mode(modes: Seq<Seq<char>>, cur: Seq<char>) -> Seq<char> {
    if exists|i: int| 0 <= i < modes.len() && modes[i] == cur {
        let i = choose|i: int| 0 <= i < modes.len() && modes[i] == cur && forall|j: int| 0 <= j < i ==> modes[j] != cur;
        modes[(i + 1) % (modes.len() as int)]
    } else {
        modes[0]
    }
}

/// The next theme mode (System, Dark, Light, ... as the theme lists them).
pub fn cycle_theme_mode(modes: &Vec<&'static str>, cur: &str) -> (r: &'static str)
    requires
        modes@.len() > 0,
    ensures
        r@ == spec_next_mode(modes@.map_values(|s: &'static str| s@), cur@),
{
    let ghost mv = modes@.map_values(|s: &'static str| s@);
    let mut i: usize = 0;
    while i < modes.len()
        invariant
            mv == modes@.map_values(|s: &'static str| s@),
            i <= modes@.len(),
            forall|j: int| 0 <= j < i ==> mv[j] != cur@,
        decreases modes@.len() - i,
    {
        if str_eq(modes[i], cur) {
            proof {
                let c = choose|c: int| 0 <= c < mv.len() && mv[c] == cur@ && forall|j: int| 0 <= j < c ==> mv[j] != cur@;
                assert(mv[i as int] == cur@);
                if c < i {
                } else if c > i {
                    assert(mv[i as int] != cur@);
                }
            }
            let k = (i + 1) % modes.len();
            let r = modes[k];
            proof {
                assert(mv[k as int] == r@);
            }
            return r;
        }
        i = i + 1;
    }
    proof {
        assert(mv[0] == modes@[0]@);
    }
    modes[0]
}

// ---------------------------------------------------------------- pop-ups that take the keyboard

/// A key while a pop-up that only waits to be dismissed shows (the teaser, "what's new"): (the key is taken,
/// it dismisses the pop-up). Escape, Enter and Space dismiss it; every key is taken while it shows.
pub fn dismiss_key(showing: bool, key: Key) -> (r: (bool, bool))
    ensures
        r == (showing, showing && (key == Key::Escape || key == Key::Return || key == Key::KpEnter || key == Key::Space)),
{
    if !showing {
        return (false, false);
    }
    (true, key == Key::Escape || key == Key::Return || key == Key::KpEnter || key == Key::Space)
}

/// What a key does on the Sell page.
#[derive(Clone, Copy, PartialEq, Eq, Debug, Structural)]
pub enum SellKey {
    /// the page isn't open, or the key is for nothing here
    NotUsed,
    /// Escape: close the page
    Close,
    /// Enter: press Sell
    Press,
    /// Ctrl+V in the amount field: paste
    Paste,
    /// another key in the amount field: it edits the amount (if the field takes it, "Sell All" and "Are you
    /// sure?" are turned off)
    Edit,
}

/// Keys on the Sell page: Escape closes it, Enter sells; with the amount field focused, Ctrl+V pastes and other
/// keys edit it.
pub fn sell_key(open: bool, focus: bool, key: Key, ctrl: bool) -> (r: SellKey)
    ensures
        r == if !open {
            SellKey::NotUsed
        } else if key == Key::Escape {
            SellKey::Close
        } else if key == Key::Return || key == Key::KpEnter {
            SellKey::Press
        } else if !focus {
            SellKey::NotUsed
        } else if key == Key::V && ctrl {
            SellKey::Paste
        } else {
            SellKey::Edit
        },
{
    if !open {
        SellKey::NotUsed
    } else if key == Key::Escape {
        SellKey::Close
    } else if key == Key::Return || key == Key::KpEnter {
        SellKey::Press
    } else if !focus {
        SellKey::NotUsed
    } else if key == Key::V && ctrl {
        SellKey::Paste
    } else {
        SellKey::Edit
    }
}

/// What a key does in a page with a text field that sends (Friends' search, Feedback).
#[derive(Clone, Copy, PartialEq, Eq, Debug, Structural)]
pub enum FieldKey {
    /// the page isn't open or its field isn't focused
    NotUsed,
    /// Enter: send what was typed
    Submit,
    /// any other key edits the field
    Edit,
}

/// Keys in a page's text field: only while the page is open and the field focused; Enter sends.
pub fn field_key(open: bool, focus: bool, key: Key) -> (r: FieldKey)
    ensures
        r == if !(open && focus) {
            FieldKey::NotUsed
        } else if key == Key::Return || key == Key::KpEnter {
            FieldKey::Submit
        } else {
            FieldKey::Edit
        },
{
    if !(open && focus) {
        FieldKey::NotUsed
    } else if key == Key::Return || key == Key::KpEnter {
        FieldKey::Submit
    } else {
        FieldKey::Edit
    }
}

// ---------------------------------------------------------------- the mouse wheel

/// What is open when the mouse wheel turns, and which lists the mouse is over.
#[derive(Clone, Copy, PartialEq, Eq, Debug, Structural)]
pub struct WheelContext {
    pub ban_screen: bool,
    pub admin_menu: bool,
    pub ban_admin: bool,
    pub feedback: bool,
    pub friends: bool,
    /// a chat is open (inside Friends)
    pub chat: bool,
    /// Friends' avatar picker, the title picker or a trade being proposed is open
    pub friends_popup: bool,
    pub update_log: bool,
    pub game_screen: bool,
    pub options: bool,
    pub stats: bool,
    pub sell: bool,
    pub evolve: bool,
    pub tutorial: bool,
    pub whats_new: bool,
    pub battle: bool,
    pub leaderboard: bool,
    pub credits: bool,
    pub update_modal: bool,
    pub cutscene: bool,
    pub shop: bool,
    pub index: bool,
    pub traits: bool,
    pub rebirth: bool,
    /// the right / left side panels are showing
    pub right_panel: bool,
    pub left_panel: bool,
    /// the mouse is over that list
    pub over_ban_list: bool,
    pub over_feedback_list: bool,
    pub over_chat_list: bool,
    pub over_friends_list: bool,
    pub over_update_log_list: bool,
    pub over_shop_list: bool,
    pub over_index_list: bool,
    pub over_traits_list: bool,
    pub over_rebirth_list: bool,
    pub over_right_panel: bool,
    pub over_left_panel: bool,
}

/// The list the mouse wheel scrolls.
#[derive(Clone, Copy, PartialEq, Eq, Debug, Structural)]
pub enum WheelTarget {
    BanList,
    Feedback,
    /// the chat scrolls the other way (newest at the bottom)
    Chat,
    Friends,
    UpdateLog,
    Shop,
    Index,
    Traits,
    Rebirth,
    RightPanel,
    LeftPanel,
}

/// The top-most open page takes the wheel, and only over its list; nothing scrolls behind a pop-up.
pub open spec fn spec_wheel(c: WheelContext) -> Option<WheelTarget> {
    if c.ban_screen || c.admin_menu {
        None
    } else if c.ban_admin {
        if c.over_ban_list { Some(WheelTarget::BanList) } else { None }
    } else if c.feedback {
        if c.over_feedback_list { Some(WheelTarget::Feedback) } else { None }
    } else if c.friends {
        if c.chat {
            if c.over_chat_list { Some(WheelTarget::Chat) } else { None }
        } else if c.over_friends_list || c.friends_popup {
            Some(WheelTarget::Friends)
        } else {
            None
        }
    } else if c.update_log {
        if c.over_update_log_list { Some(WheelTarget::UpdateLog) } else { None }
    } else if !c.game_screen || c.options || c.stats || c.sell || c.evolve || c.tutorial || c.whats_new || c.battle
        || c.leaderboard || c.credits || c.update_modal || c.cutscene {
        None
    } else if c.shop {
        if c.over_shop_list { Some(WheelTarget::Shop) } else { None }
    } else if c.index {
        if c.over_index_list { Some(WheelTarget::Index) } else { None }
    } else if c.traits && c.over_traits_list {
        Some(WheelTarget::Traits)
    } else if c.rebirth && c.over_rebirth_list {
        Some(WheelTarget::Rebirth)
    } else if c.right_panel && c.over_right_panel {
        Some(WheelTarget::RightPanel)
    } else if c.left_panel && c.over_left_panel {
        Some(WheelTarget::LeftPanel)
    } else {
        None
    }
}

/// Which list the mouse wheel scrolls; None: the wheel does nothing here.
pub fn wheel_target(c: &WheelContext) -> (r: Option<WheelTarget>)
    ensures
        r == spec_wheel(*c),
{
    if c.ban_screen || c.admin_menu {
        None
    } else if c.ban_admin {
        if c.over_ban_list { Some(WheelTarget::BanList) } else { None }
    } else if c.feedback {
        if c.over_feedback_list { Some(WheelTarget::Feedback) } else { None }
    } else if c.friends {
        if c.chat {
            if c.over_chat_list { Some(WheelTarget::Chat) } else { None }
        } else if c.over_friends_list || c.friends_popup {
            Some(WheelTarget::Friends)
        } else {
            None
        }
    } else if c.update_log {
        if c.over_update_log_list { Some(WheelTarget::UpdateLog) } else { None }
    } else if !c.game_screen || c.options || c.stats || c.sell || c.evolve || c.tutorial || c.whats_new || c.battle
        || c.leaderboard || c.credits || c.update_modal || c.cutscene {
        None
    } else if c.shop {
        if c.over_shop_list { Some(WheelTarget::Shop) } else { None }
    } else if c.index {
        if c.over_index_list { Some(WheelTarget::Index) } else { None }
    } else if c.traits && c.over_traits_list {
        Some(WheelTarget::Traits)
    } else if c.rebirth && c.over_rebirth_list {
        Some(WheelTarget::Rebirth)
    } else if c.right_panel && c.over_right_panel {
        Some(WheelTarget::RightPanel)
    } else if c.left_panel && c.over_left_panel {
        Some(WheelTarget::LeftPanel)
    } else {
        None
    }
}

/// The wheel only ever scrolls a list the mouse is over (the Friends pop-ups excepted, which take it anywhere).
pub proof fn law_wheel_needs_the_mouse_over(c: WheelContext)
    ensures
        spec_wheel(c) matches Some(t) ==> match t {
            WheelTarget::BanList => c.over_ban_list,
            WheelTarget::Feedback => c.over_feedback_list,
            WheelTarget::Chat => c.over_chat_list,
            WheelTarget::Friends => c.over_friends_list || c.friends_popup,
            WheelTarget::UpdateLog => c.over_update_log_list,
            WheelTarget::Shop => c.over_shop_list,
            WheelTarget::Index => c.over_index_list,
            WheelTarget::Traits => c.over_traits_list,
            WheelTarget::Rebirth => c.over_rebirth_list,
            WheelTarget::RightPanel => c.over_right_panel,
            WheelTarget::LeftPanel => c.over_left_panel,
        },
{
}

// ---------------------------------------------------------------- friends and leaderboard

/// How another player is related to you.
#[derive(Clone, Copy, PartialEq, Eq, Debug, Structural)]
pub enum Relation {
    Friend,
    /// you sent them a friend request
    Sent,
    /// they sent you one
    Incoming,
}

/// The uids as texts.
pub open spec fn uids_view(v: Seq<String>) -> Seq<Seq<char>> {
    v.map_values(|s: String| s@)
}

fn contains_str(v: &Vec<String>, s: &str) -> (b: bool)
    ensures
        b == uids_view(v@).contains(s@),
{
    let ghost vv = uids_view(v@);
    let mut i: usize = 0;
    while i < v.len()
        invariant
            vv == uids_view(v@),
            i <= v@.len(),
            forall|j: int| 0 <= j < i ==> vv[j] != s@,
        decreases v@.len() - i,
    {
        if str_eq(v[i].as_str(), s) {
            proof {
                assert(vv[i as int] == s@);
            }
            return true;
        }
        i = i + 1;
    }
    false
}

/// A friend first, then a request you sent, then one you received.
pub fn friend_relation(uid: &str, friends: &Vec<String>, outgoing: &Vec<String>, incoming: &Vec<String>) -> (r: Option<Relation>)
    ensures
        r == if uids_view(friends@).contains(uid@) {
            Some(Relation::Friend)
        } else if uids_view(outgoing@).contains(uid@) {
            Some(Relation::Sent)
        } else if uids_view(incoming@).contains(uid@) {
            Some(Relation::Incoming)
        } else {
            None
        },
{
    if contains_str(friends, uid) {
        Some(Relation::Friend)
    } else if contains_str(outgoing, uid) {
        Some(Relation::Sent)
    } else if contains_str(incoming, uid) {
        Some(Relation::Incoming)
    } else {
        None
    }
}

/// The usernames of a leaderboard tab's rows (None: a row without one).
pub open spec fn rows_view(v: Seq<Option<String>>) -> Seq<Option<Seq<char>>> {
    v.map_values(|r: Option<String>| match r {
        Some(s) => Some(s@),
        None => None,
    })
}

/// Your place on one tab (1 = first): your name's first row, None when you're not listed.
pub open spec fn spec_place(rows: Seq<Option<Seq<char>>>, name: Seq<char>) -> Option<int> {
    if exists|i: int| 0 <= i < rows.len() && rows[i] == Some(name) {
        Some(1 + choose|i: int| 0 <= i < rows.len() && rows[i] == Some(name) && forall|j: int| 0 <= j < i ==> rows[j] != Some(name))
    } else {
        None
    }
}

fn place_in(rows: &Vec<Option<String>>, name: &str) -> (r: Option<usize>)
    requires
        rows@.len() < usize::MAX,
    ensures
        match r {
            Some(p) => spec_place(rows_view(rows@), name@) == Some(p as int) && 1 <= p <= rows@.len(),
            None => spec_place(rows_view(rows@), name@) is None,
        },
{
    let ghost rv = rows_view(rows@);
    let mut i: usize = 0;
    while i < rows.len()
        invariant
            rv == rows_view(rows@),
            i <= rows@.len() < usize::MAX,
            forall|j: int| 0 <= j < i ==> rv[j] != Some(name@),
        decreases rows@.len() - i,
    {
        let hit = match &rows[i] {
            Some(u) => str_eq(u.as_str(), name),
            None => false,
        };
        if hit {
            proof {
                assert(rv[i as int] == Some(name@));
                let c = choose|c: int| 0 <= c < rv.len() && rv[c] == Some(name@) && forall|j: int| 0 <= j < c ==> rv[j] != Some(name@);
                if c < i {
                } else if c > i {
                    assert(rv[i as int] != Some(name@));
                }
            }
            return Some(i + 1);
        }
        proof {
            assert(rv[i as int] != Some(name@));
        }
        i = i + 1;
    }
    None
}

/// Your best place over the tabs (the lowest), None when you're in none of them.
pub open spec fn spec_top_rank(tabs: Seq<Seq<Option<Seq<char>>>>, name: Seq<char>) -> Option<int>
    decreases tabs.len(),
{
    if tabs.len() == 0 {
        None
    } else {
        let before = spec_top_rank(tabs.drop_last(), name);
        match spec_place(tabs.last(), name) {
            None => before,
            Some(p) => match before {
                None => Some(p),
                Some(b) => Some(if p < b { p } else { b }),
            },
        }
    }
}

proof fn lemma_first_row(rows: Seq<Option<Seq<char>>>, name: Seq<char>, i: int)
    requires
        0 <= i < rows.len(),
        rows[i] == Some(name),
    ensures
        exists|f: int| 0 <= f < rows.len() && rows[f] == Some(name) && forall|j: int| 0 <= j < f ==> rows[j] != Some(name),
    decreases i,
{
    if exists|j: int| 0 <= j < i && rows[j] == Some(name) {
        let j = choose|j: int| 0 <= j < i && rows[j] == Some(name);
        lemma_first_row(rows, name, j);
    } else {
        assert(forall|j: int| 0 <= j < i ==> rows[j] != Some(name));
    }
}

proof fn lemma_place_pos(rows: Seq<Option<Seq<char>>>, name: Seq<char>)
    ensures
        spec_place(rows, name) matches Some(p) ==> p >= 1,
{
    if exists|i: int| 0 <= i < rows.len() && rows[i] == Some(name) {
        let i0 = choose|i: int| 0 <= i < rows.len() && rows[i] == Some(name);
        lemma_first_row(rows, name, i0);
    }
}

/// Your best place is a real place on one of the tabs: None exactly when your name is on no tab, else the
/// 1-based place of your first row on some tab, and no tab shows you higher.
#[verifier::rlimit(50)]
pub proof fn law_top_rank_is_best_place(tabs: Seq<Seq<Option<Seq<char>>>>, name: Seq<char>)
    ensures
        (spec_top_rank(tabs, name) is None) == (forall|t: int| 0 <= t < tabs.len() ==> spec_place(#[trigger] tabs[t], name) is None),
        spec_top_rank(tabs, name) matches Some(k) ==> k >= 1 && (exists|t: int| 0 <= t < tabs.len() && spec_place(#[trigger] tabs[t], name) == Some(k))
            && forall|t: int| 0 <= t < tabs.len() && #[trigger] spec_place(tabs[t], name) is Some ==> k <= spec_place(tabs[t], name)->0,
    decreases tabs.len(),
{
    if tabs.len() > 0 {
        let d = tabs.drop_last();
        law_top_rank_is_best_place(d, name);
        let l = tabs.len() - 1;
        assert(tabs[l] == tabs.last());
        assert forall|t: int| 0 <= t < d.len() implies #[trigger] tabs[t] == d[t] by {}
        let r = spec_top_rank(tabs, name);
        let before = spec_top_rank(d, name);
        let last = spec_place(tabs.last(), name);
        lemma_place_pos(tabs.last(), name);
        if before is None {
            assert forall|t: int| 0 <= t < d.len() implies spec_place(#[trigger] tabs[t], name) is None by {
                assert(spec_place(d[t], name) is None);
            }
        }
        assert(r == match last {
            None => before,
            Some(p) => match before {
                None => Some(p),
                Some(b) => Some(if p < b { p } else { b }),
            },
        });
        if r is None {
            assert(last is None && before is None);
            assert forall|t: int| 0 <= t < tabs.len() implies spec_place(#[trigger] tabs[t], name) is None by {
                if t < d.len() {
                    assert(spec_place(d[t], name) is None);
                }
            }
        } else {
            let t = l;
            assert(spec_place(tabs[t], name) is Some || before is Some);
        }
        if r is Some {
            let k = r->0;
            if before is Some {
                let b = before->0;
                assert(b >= 1);
                let t0 = choose|t: int| 0 <= t < d.len() && spec_place(#[trigger] d[t], name) == Some(b);
                assert(spec_place(tabs[t0], name) == Some(b));
                assert(k >= 1);
                if last is Some && last->0 < b {
                    assert(spec_place(tabs[l], name) == Some(k));
                } else {
                    assert(spec_place(tabs[t0], name) == Some(k));
                }
                assert forall|t: int| 0 <= t < tabs.len() && #[trigger] spec_place(tabs[t], name) is Some implies k <= spec_place(tabs[t], name)->0 by {
                    if t < d.len() {
                        assert(spec_place(d[t], name) is Some);
                    }
                }
            } else {
                assert(spec_place(tabs[l], name) == Some(k));
                assert forall|t: int| 0 <= t < tabs.len() && #[trigger] spec_place(tabs[t], name) is Some implies k <= spec_place(tabs[t], name)->0 by {
                    if t < d.len() {
                        assert(spec_place(d[t], name) is None);
                    }
                }
            }
        }
    }
}

/// Your best place on any leaderboard tab (1 = first), from each tab's rows; None = not listed.
pub fn my_top_rank(name: &str, tabs: &Vec<Vec<Option<String>>>) -> (r: Option<i64>)
    requires
        forall|t: int| 0 <= t < tabs@.len() ==> (#[trigger] tabs@[t])@.len() < i64::MAX && tabs@[t]@.len() < usize::MAX,
    ensures
        r == match spec_top_rank(tabs@.map_values(|t: Vec<Option<String>>| rows_view(t@)), name@) {
            Some(p) => Some(p as i64),
            None => None::<i64>,
        },
{
    let ghost tv = tabs@.map_values(|t: Vec<Option<String>>| rows_view(t@));
    let mut best: Option<i64> = None;
    let mut i: usize = 0;
    while i < tabs.len()
        invariant
            tv == tabs@.map_values(|t: Vec<Option<String>>| rows_view(t@)),
            i <= tabs@.len(),
            forall|t: int| 0 <= t < tabs@.len() ==> (#[trigger] tabs@[t])@.len() < i64::MAX && tabs@[t]@.len() < usize::MAX,
            best == match spec_top_rank(tv.subrange(0, i as int), name@) {
                Some(p) => Some(p as i64),
                None => None::<i64>,
            },
            spec_top_rank(tv.subrange(0, i as int), name@) matches Some(p) ==> 1 <= p < i64::MAX,
        decreases tabs@.len() - i,
    {
        proof {
            assert(tv.subrange(0, i + 1).drop_last() =~= tv.subrange(0, i as int));
            assert(tv.subrange(0, i + 1).last() == rows_view(tabs@[i as int]@));
            assert(tabs@[i as int]@.len() < i64::MAX);
        }
        match place_in(&tabs[i], name) {
            Some(p) => {
                let p = p as i64;
                best = match best {
                    None => Some(p),
                    Some(b) => Some(if p < b { p } else { b }),
                };
            },
            None => {},
        }
        i = i + 1;
    }
    proof {
        assert(tv.subrange(0, tabs@.len() as int) =~= tv);
    }
    best
}

// ---------------------------------------------------------------- titles

/// How a title is earned, as far as knowing whether it is still held.
#[derive(Clone, Copy, PartialEq, Eq, Debug, Structural)]
pub enum TitleUnlock {
    /// the admin's title: known once the admin check came back
    Admin,
    /// Top 1/2/3: known once there is leaderboard data and an account
    TopRank,
    /// the rest, known from the save itself
    Other,
}

/// Whether the equipped title is taken off: when it isn't held any more, and only once that is known.
pub fn title_dropped(unlock: TitleUnlock, admin_checked: bool, loading_admin: bool, has_lb: bool, has_account: bool, unlocked: bool) -> (r: bool)
    ensures
        r == (!unlocked && match unlock {
            TitleUnlock::Admin => admin_checked && !loading_admin,
            TitleUnlock::TopRank => has_lb && has_account,
            TitleUnlock::Other => true,
        }),
{
    let known = match unlock {
        TitleUnlock::Admin => admin_checked && !loading_admin,
        TitleUnlock::TopRank => has_lb && has_account,
        TitleUnlock::Other => true,
    };
    known && !unlocked
}

/// An optional text, as characters.
pub open spec fn opt_chars(o: Option<&str>) -> Option<Seq<char>> {
    match o {
        Some(s) => Some(s@),
        None => None,
    }
}

/// What was last published, as characters: (account, title).
pub open spec fn published(p: Option<(String, Option<String>)>) -> Option<(Seq<char>, Option<Seq<char>>)> {
    match p {
        Some((u, t)) => Some((u@, match t {
            Some(x) => Some(x@),
            None => None,
        })),
        None => None,
    }
}

/// Whether the equipped title (None = no title) is published for this account now: not while a publish is on
/// its way, and only when (account, title) is not what was last published.
pub fn title_push_needed(pushing: bool, uid: &str, title: Option<&str>, pushed: &Option<(String, Option<String>)>) -> (r: bool)
    ensures
        r == (!pushing && published(*pushed) != Some((uid@, opt_chars(title)))),
{
    if pushing {
        return false;
    }
    match pushed {
        None => true,
        Some((u, t)) => {
            let same_title = match (t, title) {
                (None, None) => true,
                (Some(a), Some(b)) => str_eq(a.as_str(), b),
                _ => false,
            };
            !(str_eq(u.as_str(), uid) && same_title)
        },
    }
}

// ---------------------------------------------------------------- the leaderboard's data

/// Whether the leaderboard is fetched now. Not without a connection or while a fetch is on its way; a forced
/// fetch (the Refresh button) always goes; otherwise the data kept is used while it is `fresh` (of this period and
/// complete) unless, with an account, you published your stats again since (`republished`) after it was fetched
/// (`published_after_fetch`), so your own row shows what you have; and after a failed fetch it waits (`retry_wait`).
pub fn lb_fetch_needed(online: bool, loading: bool, force: bool, fresh: bool, has_account: bool, republished: bool, published_after_fetch: bool, retry_wait: bool) -> (r: bool)
    ensures
        r == (online && !loading && (force || (!(fresh && !(has_account && republished && published_after_fetch)) && !retry_wait))),
{
    if !online || loading {
        return false;
    }
    if force {
        return true;
    }
    let mut still_fresh = fresh;
    if still_fresh && has_account && republished && published_after_fetch {
        still_fresh = false;
    }
    if still_fresh {
        return false;
    }
    !retry_wait
}

} // verus!
