//! The decisions of the interactive loops: what a key press or a message from
//! the other player does to the game. The program around the library reads
//! the keys and the network and hands the events in.

use vstd::prelude::*;

use crate::game::{loose, monsters_moved, next_level_entered, stepped, Game, GameState, Scene};
use crate::protocol::{ClientMsg, NetGameState};
use crate::text::{nat_text, u16_string};

verus! {

/// A key press, as the loops tell keys apart.
#[derive(Clone, Copy, PartialEq, Eq, Debug, Structural)]
pub enum Key {
    Up,
    Down,
    Left,
    Right,
    Esc,
    Enter,
    /// A character key; `ctrl` tells whether Control was held.
    Char(char, bool),
    Other,
}

impl Key {
    /// The step an arrow key stands for.
    pub open spec fn step_of(self) -> Option<(i32, i32)> {
        match self {
            Key::Up => Some((0i32, -1i32)),
            Key::Down => Some((0i32, 1i32)),
            Key::Left => Some((-1i32, 0i32)),
            Key::Right => Some((1i32, 0i32)),
            _ => None,
        }
    }

    /// The step an arrow key stands for; `None` for any other key.
    pub fn direction(&self) -> (d: Option<(i32, i32)>)
        ensures
            d == self.step_of(),
    {
        match self {
            Key::Up => Some((0, -1)),
            Key::Down => Some((0, 1)),
            Key::Left => Some((-1, 0)),
            Key::Right => Some((1, 0)),
            _ => None,
        }
    }

    /// Keys that confirm quitting: `y`, `Y` or Enter.
    pub open spec fn confirms(self) -> bool {
        self == Key::Enter || (self matches Key::Char(c, _) && (c == 'y' || c == 'Y'))
    }

    /// Keys that take quitting back: `n`, `N` or Esc.
    pub open spec fn declines(self) -> bool {
        self == Key::Esc || (self matches Key::Char(c, _) && (c == 'n' || c == 'N'))
    }

    /// Control-C.
    pub open spec fn interrupts(self) -> bool {
        self matches Key::Char(c, ctrl) && c == 'c' && ctrl
    }

    /// A key that plays in a running game for one player: an arrow, or `+`.
    pub open spec fn plays(self) -> bool {
        self.step_of() is Some || (self matches Key::Char(c, _) && c == '+')
    }
}

/// A step of the first player followed, while the game is still running, by
/// the monsters' turn.
pub open spec fn turn_played(pre: Scene, dx: int, dy: int, post: Scene) -> bool {
    exists|mid: Scene| #[trigger] stepped(pre, false, dx, dy, mid)
        && (if mid.state == GameState::Playing { monsters_moved(mid, post) } else { post == mid })
}

/// What a key does while the game waits for a quit to be confirmed; the
/// flag tells whether the loop goes on.
pub open spec fn quit_answered(pre: Scene, key: Key, post: Scene, go_on: bool) -> bool {
    if key.confirms() {
        !go_on && post == pre
    } else if key.declines() {
        go_on && post == Scene { state: GameState::Playing, ..pre }
    } else if key.interrupts() {
        !go_on && post == pre
    } else {
        go_on && post == pre
    }
}

/// What a key does in a game for one player: while playing, Esc asks to
/// quit, `+` goes a level deeper (below level 10 only), an arrow plays a
/// turn; while a quit waits for confirmation see `quit_answered`; in any other
/// state every key ends the loop.
pub open spec fn solo_key_handled(pre: Scene, key: Key, post: Scene, go_on: bool) -> bool {
    match pre.state {
        GameState::Playing => go_on && (
            if key == Key::Esc {
                post == Scene { state: GameState::ConfirmQuit, ..pre }
            } else if key matches Key::Char(c, _) && c == '+' {
                if pre.level < 10 { next_level_entered(pre, post) } else { post == pre }
            } else if key.step_of() is Some {
                turn_played(pre, key.step_of().unwrap().0 as int, key.step_of().unwrap().1 as int, post)
            } else {
                post == pre
            }),
        GameState::ConfirmQuit => quit_answered(pre, key, post, go_on),
        _ => !go_on && post == pre,
    }
}

/// What the host's own key does: like `solo_key_handled`, except that `+`
/// does nothing and an arrow moves the first player without the monsters'
/// turn (that comes once per round, see `end_round`). The result tells
/// whether the loop goes on and whether the first player acted.
pub open spec fn host_key_handled(pre: Scene, key: Key, post: Scene, go_on: bool, acted: bool) -> bool {
    match pre.state {
        GameState::Playing => go_on && (
            if key == Key::Esc {
                !acted && post == Scene { state: GameState::ConfirmQuit, ..pre }
            } else if key.step_of() is Some {
                acted && stepped(pre, false, key.step_of().unwrap().0 as int, key.step_of().unwrap().1 as int, post)
            } else {
                !acted && post == pre
            }),
        GameState::ConfirmQuit => !acted && quit_answered(pre, key, post, go_on),
        _ => !go_on && !acted && post == pre,
    }
}

pub open spec fn p2_quit_text() -> Seq<char> {
    "P2 quit. Continuing solo."@
}

pub open spec fn p2_lost_text() -> Seq<char> {
    "P2 disconnected. Continuing solo."@
}

/// What a message from the client does on the host: a move moves the second
/// player while the game is running; a quit removes the second player. The
/// flags tell whether the second player acted and whether the client is
/// still connected.
pub open spec fn client_msg_handled(pre: Scene, msg: ClientMsg, post: Scene, acted: bool, connected: bool) -> bool {
    match msg {
        ClientMsg::Move(dx, dy) => connected && if pre.state == GameState::Playing {
            acted && stepped(pre, true, dx as int, dy as int, post)
        } else {
            !acted && post == pre
        },
        ClientMsg::Quit => !acted && !connected && post == Scene { player2: None, ..pre }.with_msg(p2_quit_text()),
    }
}

impl Game {
    /// Handles a key press in a game for one player; see `solo_key_handled`.
    /// Returns whether the loop goes on.
    pub fn solo_key(&mut self, key: Key) -> (go_on: bool)
        requires
            old(self).inv(),
        ensures
            solo_key_handled(old(self)@, key, final(self)@, go_on),
            final(self).map.wf(),
            !(old(self).state == GameState::Playing && key.plays()) ==> final(self).rng == old(self).rng,
    {
        let ghost pre = self@;
        match self.state {
            GameState::Playing => {
                if key == Key::Esc {
                    self.state = GameState::ConfirmQuit;
                    assert(self@ =~~= Scene { state: GameState::ConfirmQuit, ..pre });
                } else if key == Key::Char('+', false) || key == Key::Char('+', true) {
                    if self.level < 10 {
                        self.next_level();
                    }
                } else {
                    match key.direction() {
                        Some((dx, dy)) => {
                            self.move_player(dx, dy);
                            let ghost mid = self@;
                            if self.state == GameState::Playing {
                                self.move_monsters();
                            }
                            assert(stepped(pre, false, dx as int, dy as int, mid));
                        },
                        None => {},
                    }
                }
                true
            },
            GameState::ConfirmQuit => self.answer_quit(key),
            _ => false,
        }
    }

    /// Handles a key while a quit waits for confirmation; see `quit_answered`.
    fn answer_quit(&mut self, key: Key) -> (go_on: bool)
        requires
            old(self).map.wf(),
        ensures
            quit_answered(old(self)@, key, final(self)@, go_on),
            final(self).map.wf(),
            final(self).rng == old(self).rng,
    {
        let ghost pre = self@;
        match key {
            Key::Enter => false,
            Key::Char('y', _) | Key::Char('Y', _) => false,
            Key::Esc | Key::Char('n', _) | Key::Char('N', _) => {
                self.state = GameState::Playing;
                assert(self@ =~~= Scene { state: GameState::Playing, ..pre });
                true
            },
            Key::Char('c', true) => false,
            _ => true,
        }
    }

    /// Handles the host's own key press; see `host_key_handled`. Returns
    /// whether the loop goes on and whether the first player acted.
    pub fn host_key(&mut self, key: Key) -> (r: (bool, bool))
        requires
            old(self).inv(),
        ensures
            host_key_handled(old(self)@, key, final(self)@, r.0, r.1),
            final(self).map.wf(),
            final(self)@.settled(),
            !(old(self).state == GameState::Playing && key.step_of() is Some) ==> final(self).rng == old(self).rng,
    {
        let ghost pre = self@;
        match self.state {
            GameState::Playing => {
                if key == Key::Esc {
                    self.state = GameState::ConfirmQuit;
                    assert(self@ =~~= Scene { state: GameState::ConfirmQuit, ..pre });
                    (true, false)
                } else {
                    match key.direction() {
                        Some((dx, dy)) => {
                            self.move_player(dx, dy);
                            (true, true)
                        },
                        None => (true, false),
                    }
                }
            },
            GameState::ConfirmQuit => {
                let go_on = self.answer_quit(key);
                (go_on, false)
            },
            _ => (false, false),
        }
    }

    /// Handles a message from the client; see `client_msg_handled`. Returns
    /// whether the second player acted and whether the client is still
    /// connected.
    pub fn host_client_msg(&mut self, msg: ClientMsg) -> (r: (bool, bool))
        requires
            old(self).inv(),
            msg matches ClientMsg::Move(dx, dy) ==> (old(self).player2 matches Some(p)
                ==> i32::MIN <= p.x + dx <= i32::MAX && i32::MIN <= p.y + dy <= i32::MAX),
        ensures
            client_msg_handled(old(self)@, msg, final(self)@, r.0, r.1),
            final(self).map.wf(),
            final(self)@.settled(),
    {
        let ghost pre = self@;
        match msg {
            ClientMsg::Move(dx, dy) => {
                if self.state == GameState::Playing {
                    self.move_player2(dx, dy);
                    (true, true)
                } else {
                    (false, true)
                }
            },
            ClientMsg::Quit => {
                self.player2 = None;
                self.status_msg = String::from_str("P2 quit. Continuing solo.");
                assert(self@ =~~= Scene { player2: None, ..pre }.with_msg(p2_quit_text()));
                (false, false)
            },
        }
    }

    /// Whether a message from the client keeps the second player's target
    /// cell within `i32`, as `host_client_msg` needs.
    pub fn client_msg_fits(&self, msg: ClientMsg) -> (b: bool)
        ensures
            b == (msg matches ClientMsg::Move(dx, dy) ==> (self.player2 matches Some(p)
                ==> i32::MIN <= p.x + dx <= i32::MAX && i32::MIN <= p.y + dy <= i32::MAX)),
    {
        match msg {
            ClientMsg::Move(dx, dy) => match &self.player2 {
                Some(p) => {
                    let x = p.x as i128 + dx as i128;
                    let y = p.y as i128 + dy as i128;
                    -2147483648i128 <= x && x <= 2147483647i128 && -2147483648i128 <= y && y <= 2147483647i128
                },
                None => true,
            },
            ClientMsg::Quit => true,
        }
    }

    /// Ends a round on the host: when a player acted and the game is still
    /// running, the monsters take their turn.
    pub fn end_round(&mut self, acted: bool)
        requires
            old(self).map.wf(),
            old(self)@.settled(),
        ensures
            (if acted && old(self).state == GameState::Playing {
                monsters_moved(old(self)@, final(self)@)
            } else {
                final(self)@ == old(self)@
            }),
            final(self).map.wf(),
            final(self)@.settled(),
    {
        if acted && self.state == GameState::Playing {
            self.move_monsters();
        }
    }

    /// The client is gone: the host continues alone.
    pub fn lose_player2(&mut self)
        ensures
            final(self)@ == (Scene { player2: None, ..old(self)@ }).with_msg(p2_lost_text()),
            final(self).map == old(self).map,
    {
        self.player2 = None;
        self.status_msg = String::from_str("P2 disconnected. Continuing solo.");
        assert(self@ =~~= Scene { player2: None, ..old(self)@ }.with_msg(p2_lost_text()));
    }
}

/// The message a client key sends: an arrow a move, Esc a quit; other keys
/// send nothing.
pub fn client_key_message(key: Key) -> (m: Option<ClientMsg>)
    ensures
        m == (match key.step_of() {
            Some((dx, dy)) => Some(ClientMsg::Move(dx, dy)),
            None => if key == Key::Esc { Some(ClientMsg::Quit) } else { None },
        }),
{
    match key.direction() {
        Some((dx, dy)) => Some(ClientMsg::Move(dx, dy)),
        None => if key == Key::Esc { Some(ClientMsg::Quit) } else { None },
    }
}

/// What the client shows once its session with the host has ended.
#[derive(Clone, Copy, PartialEq, Eq, Debug, Structural)]
pub enum AfterSession {
    /// The last snapshot's end screen, until a key is pressed.
    EndScreen,
    /// The "Connection lost" screen, until a key is pressed.
    Lost,
}

/// What follows the end of a client's session, given the last snapshot: a
/// finished game shows its end screen; a game still running, or none at all,
/// shows that the connection is lost, however the session ended.
pub fn after_session(last: &Option<NetGameState>) -> (r: AfterSession)
    ensures
        r == (match last {
            Some(n) => if n.finished() { AfterSession::EndScreen } else { AfterSession::Lost },
            None => AfterSession::Lost,
        }),
{
    match last {
        Some(n) => if n.is_over() { AfterSession::EndScreen } else { AfterSession::Lost },
        None => AfterSession::Lost,
    }
}

/// What the start menu offers.
#[derive(Clone, Copy, PartialEq, Eq, Debug, Structural)]
pub enum MenuChoice {
    SinglePlayer,
    Host,
    Join,
    Quit,
}

/// The menu entry a key picks: `s`, `h`, `j` (either case) and `q` or Esc.
pub fn menu_choice(key: Key) -> (c: Option<MenuChoice>)
    ensures
        c == (match key {
            Key::Char(ch, _) => if ch == 's' || ch == 'S' {
                Some(MenuChoice::SinglePlayer)
            } else if ch == 'h' || ch == 'H' {
                Some(MenuChoice::Host)
            } else if ch == 'j' || ch == 'J' {
                Some(MenuChoice::Join)
            } else if ch == 'q' || ch == 'Q' {
                Some(MenuChoice::Quit)
            } else {
                None
            },
            Key::Esc => Some(MenuChoice::Quit),
            _ => None,
        }),
{
    match key {
        Key::Char(ch, _) => {
            if ch == 's' || ch == 'S' {
                Some(MenuChoice::SinglePlayer)
            } else if ch == 'h' || ch == 'H' {
                Some(MenuChoice::Host)
            } else if ch == 'j' || ch == 'J' {
                Some(MenuChoice::Join)
            } else if ch == 'q' || ch == 'Q' {
                Some(MenuChoice::Quit)
            } else {
                None
            }
        },
        Key::Esc => Some(MenuChoice::Quit),
        _ => None,
    }
}

pub open spec fn too_small_text(cols: u16, rows: u16) -> Seq<char> {
    "Terminal too small: "@ + nat_text(cols as nat) + "×"@ + nat_text(rows as nat) + ". Minimum required: 100×30."@
}

/// The game needs a terminal of at least 100 columns and 30 rows; a smaller
/// one is refused with a message that gives its size.
pub fn terminal_size_ok(cols: u16, rows: u16) -> (r: Result<(), String>)
    ensures
        r is Ok <==> (cols >= 100 && rows >= 30),
        r matches Err(m) ==> m@ == too_small_text(cols, rows),
{
    if cols < 100 || rows < 30 {
        let mut m = String::from_str("Terminal too small: ");
        m.append(u16_string(cols).as_str());
        m.append("×");
        m.append(u16_string(rows).as_str());
        m.append(". Minimum required: 100×30.");
        Err(m)
    } else {
        Ok(())
    }
}

} // verus!
