//! Coordination between the game logic and a visualization front end:
//! mouse state, field selection, and turn dispatch.

use vstd::prelude::*;

use crate::check::{checkmate_spec, move_valid_spec};
use crate::game::ChessGame;
use crate::logic::{fld_at, Color, Figure, Position};
use crate::player::PlayerType;

verus! {

/// Handles interaction between game logic and visualization.
#[derive(Debug)]
pub struct System {
    pub mouse_x: i32,
    pub mouse_y: i32,
    pub from: Option<Position>,
    pub to: Option<Position>,
    pub game: ChessGame,
    pub ai: bool,
}

impl System {
    /// The wrapped game is in its invariant state.
    pub open spec fn wf(self) -> bool {
        self.game.inv()
    }

    /// The pending selections, if any, are a live figure of the side
    /// to move and a square it could be sent to.
    pub open spec fn selection_ok(self) -> bool {
        &&& (self.from is Some ==> {
            let p = self.from->0;
            &&& p.wf()
            &&& fld_at(self.game.board.model(), p).figure is Some
            &&& fld_at(self.game.board.model(), p).color == (if self.game.turn {
                Color::White
            } else {
                Color::Black
            })
        })
        &&& (self.to is Some ==> self.from is Some && self.to->0.wf())
    }

    /// A fresh system around a fresh game.
    pub fn new() -> (r: System)
        ensures
            r.wf(),
            r.selection_ok(),
            r.from is None,
            r.to is None,
            !r.ai,
            r.game.turn,
            !r.game.gameover,
    {
        System {
            mouse_x: 0,
            mouse_y: 0,
            from: None,
            to: None,
            game: ChessGame::new(),
            ai: false,
        }
    }

    /// Returns current mouse coordinates.
    pub fn mouse(&self) -> (r: (i32, i32))
        ensures
            r == (self.mouse_x, self.mouse_y),
    {
        (self.mouse_x, self.mouse_y)
    }

    /// Sets mouse coordinates.
    pub fn set_mouse_coordinates(&mut self, x: i32, y: i32)
        ensures
            *final(self) == (System { mouse_x: x, mouse_y: y, ..*old(self) }),
    {
        self.mouse_x = x;
        self.mouse_y = y;
    }

    /// Updates the player's figure selection: first the figure of the
    /// side to move, then a free or enemy destination square; a third
    /// selection starts over.
    pub fn set_selected(&mut self, pos: (u8, u8))
        requires
            old(self).wf(),
            old(self).selection_ok(),
        ensures
            final(self).wf(),
            final(self).selection_ok(),
            final(self).game == old(self).game,
            final(self).mouse_x == old(self).mouse_x,
            final(self).mouse_y == old(self).mouse_y,
            !(Position { x: pos.0, y: pos.1 }).wf() ==> *final(self) == *old(self),
            ({
                let at = Position { x: pos.0, y: pos.1 };
                let s = old(self).game.board.model();
                let own = fld_at(s, at).figure is Some && fld_at(s, at).color == (if old(self).game.turn {
                    Color::White
                } else {
                    Color::Black
                });
                let free_or_enemy = fld_at(s, at).figure is None || fld_at(s, at).color != (if old(self).game.turn {
                    Color::White
                } else {
                    Color::Black
                });
                at.wf() ==> {
                    &&& (old(self).from is None && old(self).to is None ==> final(self).to
                        is None && final(self).from == (if own {
                        Some(at)
                    } else {
                        old(self).from
                    }))
                    &&& (old(self).from is Some && old(self).to is None ==> final(self).from
                        == old(self).from && final(self).to == (if free_or_enemy {
                        Some(at)
                    } else {
                        old(self).to
                    }))
                    &&& (old(self).from is Some && old(self).to is Some ==> final(self).to
                        is None && final(self).from == (if own {
                        Some(at)
                    } else {
                        old(self).from
                    }))
                }
            }),
    {
        let at = if Position::is_pos(pos.0, pos.1) {
            Position::new(pos.0, pos.1)
        } else {
            return ;
        };
        match (self.from, self.to) {
            (None, None) => {
                if !self.game.board.is_empty(at) && self.game.board.get_figure_color(at).unwrap()
                    == self.game.turn_color() {
                    self.from = Some(at);
                }
            },
            (Some(_), None) => {
                if self.game.board.is_empty(at) {
                    self.to = Some(at);
                } else if self.game.board.get_figure_color(at).unwrap()
                    != self.game.turn_color() {
                    self.to = Some(at);
                }
            },
            (Some(_), Some(_)) => {
                if !self.game.board.is_empty(at) && self.game.board.get_figure_color(at).unwrap()
                    == self.game.turn_color() {
                    self.from = Some(at);
                }
                self.to = None;
            },
            (None, Some(_)) => {
                proof {
                    assert(false);
                }
            },
        }
    }

    /// If two fields have been selected, execute the turn and return
    /// the mover's color with the two squares, and whether a figure
    /// was captured.
    pub fn check_ready_and_play(&mut self) -> (r: Option<((Color, Position, Position), bool)>)
        requires
            old(self).wf(),
            old(self).selection_ok(),
        ensures
            final(self).wf(),
            final(self).selection_ok(),
            old(self).from is None || old(self).to is None ==> r is None && *final(self) == *old(self),
            ({
                let gp = old(self).game;
                let s = gp.board.model();
                old(self).from is Some && old(self).to is Some ==> {
                    let b = old(self).from->0;
                    let a = old(self).to->0;
                    let rejected = gp.gameover || crate::check::checkmate_spec(
                        s,
                        gp.white_player,
                        gp.black_player,
                    ) || !move_valid_spec(s, gp.active(), gp.inactive(), b, a);
                    &&& (rejected ==> r is None && final(self).from == old(self).from
                        && final(self).to == old(self).to)
                    &&& (!rejected ==> {
                        &&& r == Some(
                            (
                                (
                                    (if gp.turn {
                                        Color::White
                                    } else {
                                        Color::Black
                                    }),
                                    b,
                                    a,
                                ),
                                fld_at(s, a).figure is Some,
                            ),
                        )
                        &&& final(self).from is None && final(self).to is None
                        &&& final(self).game.turn == !gp.turn
                    })
                }
            }),
    {
        if self.from.is_some() && self.to.is_some() {
            let before = self.from.unwrap();
            let after = self.to.unwrap();
            proof {
                let s = self.game.board.model();
                let fq = fld_at(s, before).figure->0;
                if !self.game.gameover && !checkmate_spec(
                    s,
                    self.game.white_player,
                    self.game.black_player,
                ) {
                    assert(self.game.active().figs(fq).contains(before));
                    assert(self.game.active().owns(before));
                }
            }
            let result = self.game.do_turn(before, after);
            if result >= 0 {
                // the side that moved is the opposite of the side now
                // to move
                let turn_color = self.game.turn_color().opposite();
                self.reset_selection();
                return Some(((turn_color, before, after), result == 2 || result == 3));
            } else {
                return None;
            }
        }
        None
    }

    /// Reset field selections.
    pub fn reset_selection(&mut self)
        ensures
            *final(self) == (System { from: None, to: None, ..*old(self) }),
    {
        self.from = None;
        self.to = None;
    }

    /// Execute a turn for the AI, handing back the mover's color, the
    /// two squares, and whether a figure was captured.
    pub fn execute_ai_turn(&mut self) -> (r: Option<((Color, Position, Position), bool)>)
        requires
            old(self).wf(),
            ({
                let s = old(self).game.board.model();
                let mate = checkmate_spec(s, old(self).game.white_player, old(self).game.black_player);
                !old(self).game.gameover && !mate && old(self).game.active().ptype
                    != PlayerType::Human ==> {
                    &&& (old(self).game.active().ptype != PlayerType::Smart
                        ==> crate::check::has_move(s, old(self).game.active(), old(self).game.inactive()))
                    &&& (old(self).game.active().ptype == PlayerType::Smart ==> old(self).game.active().owns(Position { x: 1, y: 1 }) && move_valid_spec(
                        s,
                        old(self).game.active(),
                        old(self).game.inactive(),
                        Position { x: 1, y: 1 },
                        Position { x: 1, y: 2 },
                    ))
                }
            }),
        ensures
            final(self).wf(),
            final(self).from == old(self).from,
            final(self).to == old(self).to,
            ({
                let gp = old(self).game;
                let s = gp.board.model();
                let mate = checkmate_spec(s, gp.white_player, gp.black_player);
                &&& (r is Some <==> (!gp.gameover && !mate && gp.active().ptype
                    != PlayerType::Human))
                &&& (r is Some ==> {
                    let ((c, b, a), cap) = r->0;
                    &&& c == (if gp.turn {
                        Color::White
                    } else {
                        Color::Black
                    })
                    &&& gp.active().owns(b)
                    &&& move_valid_spec(s, gp.active(), gp.inactive(), b, a)
                    &&& cap == (fld_at(s, a).figure is Some)
                    &&& final(self).game.turn == !gp.turn
                })
            }),
    {
        if let Some(((before, after), (captured, _upgraded))) = self.game.do_ai_turn() {
            let turn_color = self.game.turn_color().opposite();
            return Some(((turn_color, before, after), captured));
        }
        None
    }

    /// Returns whether an AI is active.
    pub fn has_ai(&self) -> (r: bool)
        ensures
            r == self.ai,
    {
        self.ai
    }

    /// Toggles one side between human and computer control (`true`
    /// for White) and resets the field selections.
    pub fn toggle_player_ai(&mut self, which: bool)
        requires
            old(self).wf(),
        ensures
            final(self).wf(),
            final(self).game.board == old(self).game.board,
            final(self).from is None && final(self).to is None,
            final(self).selection_ok(),
            final(self).game.turn == old(self).game.turn,
            final(self).game.gameover == old(self).game.gameover,
            which ==> final(self).game.black_player == old(self).game.black_player && final(self).game.white_player.ptype == (if old(self).game.white_player.ptype
                == PlayerType::Human {
                PlayerType::Dumb
            } else {
                PlayerType::Human
            }),
            !which ==> final(self).game.white_player == old(self).game.white_player && final(self).game.black_player.ptype == (if old(self).game.black_player.ptype
                == PlayerType::Human {
                PlayerType::Dumb
            } else {
                PlayerType::Human
            }),
            final(self).ai == (final(self).game.white_player.ptype != PlayerType::Human || final(self).game.black_player.ptype != PlayerType::Human),
    {
        if which {
            if self.game.white_player.ptype() == PlayerType::Human {
                self.game.white_player.set_ptype(PlayerType::Dumb);
                self.ai = true;
            } else {
                self.game.white_player.set_ptype(PlayerType::Human);
                self.ai = self.game.black_player.ptype() != PlayerType::Human;
            }
        } else {
            if self.game.black_player.ptype() == PlayerType::Human {
                self.game.black_player.set_ptype(PlayerType::Dumb);
                self.ai = true;
            } else {
                self.game.black_player.set_ptype(PlayerType::Human);
                self.ai = self.game.white_player.ptype() != PlayerType::Human;
            }
        }
        proof {
            assert(forall|f: Figure| #[trigger] self.game.white_player.figs(f) == old(self).game.white_player.figs(f));
            assert(forall|f: Figure| #[trigger] self.game.black_player.figs(f) == old(self).game.black_player.figs(f));
        }
        self.reset_selection();
    }
}

} // verus!
