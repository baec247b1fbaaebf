//! The escape-sequence parser: a byte-level state machine over the ECMA-48
//! grammar (C0 controls, ESC, CSI, OSC, DCS and UTF-8 continuation), which
//! turns the byte stream from the shell into a stream of structured events,
//! and the handlers that apply those events to a [`Terminal`].
//!
//! The machine's transition is specified once, as the pure function
//! [`spec_step`]; the executable `advance` is proved to follow it byte for
//! byte, and `process` is proved to fold it over a whole buffer.  Feeding a
//! buffer in pieces therefore reaches exactly the same state as feeding it
//! whole ([`lemma_process_chunked`]).

use vstd::prelude::*;

use crate::grid::Color;
use crate::terminal::{
    Cursor, CursorShape, CellStyle, Terminal, TermView, MODE_AUTO_WRAP, MODE_BRACKETED_PASTE,
    MODE_CURSOR_KEYS_APP, MODE_INSERT, MODE_MOUSE_TRACKING,
};

verus! {

/// At most this many CSI parameters are kept; further ones are dropped.
pub const MAX_PARAMS: usize = 16;

/// At most this many bytes of an OSC string are kept.
pub const MAX_OSC_LEN: usize = 1024;

/// The states of the escape-sequence machine.
#[derive(Clone, Copy, Debug, PartialEq, Eq, Structural)]
pub enum ParserState {
    /// Printable text and C0 controls.
    Ground,
    /// After ESC.
    Escape,
    /// Inside CSI, collecting parameters.
    CsiParam,
    /// Inside CSI, after an intermediate byte.
    CsiIntermediate,
    /// Inside a CSI sequence that will be dropped.
    CsiIgnore,
    /// Inside an OSC string.
    OscString,
    /// Inside a DCS header.
    DcsEntry,
    /// Inside a DCS data stream (dropped).
    DcsPassthrough,
    /// Collecting the continuation bytes of a UTF-8 character.
    Utf8,
}

/// One structured event produced by the machine.
#[derive(Debug)]
pub enum Event {
    /// A printable character.
    Print(char),
    /// A C0 control byte.
    Execute(u8),
    /// A complete CSI sequence.
    Csi { params: Vec<u16>, private: bool, final_byte: u8 },
    /// A complete OSC string: numeric code, and the bytes after the first
    /// `;` (when one was seen).
    Osc { code: u16, payload: Vec<u8>, has_payload: bool },
    /// A complete plain escape sequence, by its final byte.
    Esc(u8),
}

/// The mathematical model of an [`Event`].
pub enum EventView {
    Print(char),
    Execute(u8),
    Csi { params: Seq<u16>, private: bool, final_byte: u8 },
    Osc { code: u16, payload: Seq<u8>, has_payload: bool },
    Esc(u8),
}

impl View for Event {
    type V = EventView;

    open spec fn view(&self) -> EventView {
        match self {
            Event::Print(c) => EventView::Print(*c),
            Event::Execute(b) => EventView::Execute(*b),
            Event::Csi { params, private, final_byte } => EventView::Csi {
                params: params@,
                private: *private,
                final_byte: *final_byte,
            },
            Event::Osc { code, payload, has_payload } => EventView::Osc {
                code: *code,
                payload: payload@,
                has_payload: *has_payload,
            },
            Event::Esc(b) => EventView::Esc(*b),
        }
    }
}

/// The mathematical model of an [`AnsiParser`].
#[verifier::ext_equal]
pub struct ParserView {
    pub state: ParserState,
    pub params: Seq<u16>,
    pub cur: u16,
    pub cur_set: bool,
    pub sub_ignore: bool,
    pub private: bool,
    pub osc_code: u16,
    pub osc_code_ok: bool,
    pub osc_in_payload: bool,
    pub osc_payload: Seq<u8>,
    pub utf8_rem: u8,
    pub utf8_acc: u32,
}

impl ParserView {
    /// The machine as it stands at the start of a fresh sequence.
    pub open spec fn initial() -> ParserView {
        ParserView {
            state: ParserState::Ground,
            params: Seq::empty(),
            cur: 0,
            cur_set: false,
            sub_ignore: false,
            private: false,
            osc_code: 0,
            osc_code_ok: true,
            osc_in_payload: false,
            osc_payload: Seq::empty(),
            utf8_rem: 0,
            utf8_acc: 0,
        }
    }

    /// The machine reset to `Ground` with everything cleared.
    pub open spec fn to_ground(self) -> ParserView {
        ParserView { state: ParserState::Ground, ..self }
    }

    /// The machine entering CSI collection, parameters cleared.
    pub open spec fn enter_csi(self) -> ParserView {
        ParserView {
            state: ParserState::CsiParam,
            params: Seq::empty(),
            cur: 0,
            cur_set: false,
            sub_ignore: false,
            private: false,
            ..self
        }
    }

    /// The machine entering an OSC string, accumulators cleared.
    pub open spec fn enter_osc(self) -> ParserView {
        ParserView {
            state: ParserState::OscString,
            osc_code: 0,
            osc_code_ok: true,
            osc_in_payload: false,
            osc_payload: Seq::empty(),
            ..self
        }
    }

    /// The parameter list as dispatched: the pending accumulator is
    /// appended when it was written to, or when earlier parameters exist.
    pub open spec fn final_params(self) -> Seq<u16> {
        if self.cur_set || self.params.len() > 0 {
            if self.params.len() < MAX_PARAMS {
                self.params.push(self.cur)
            } else {
                self.params
            }
        } else {
            self.params
        }
    }

    /// The CSI event this machine dispatches on a final byte.
    pub open spec fn csi_event(self, b: u8) -> EventView {
        EventView::Csi { params: self.final_params(), private: self.private, final_byte: b }
    }

    /// The OSC event this machine dispatches at a string terminator.
    pub open spec fn osc_event(self) -> EventView {
        EventView::Osc {
            code: if self.osc_code_ok {
                self.osc_code
            } else {
                0
            },
            payload: self.osc_payload,
            has_payload: self.osc_in_payload,
        }
    }
}

/// A CSI final byte.
pub open spec fn is_csi_final(b: u8) -> bool {
    0x40 <= b && b <= 0x7e
}

/// A parameter accumulator saturating at the largest 16-bit value.
pub open spec fn sat_param(cur: u16, d: u8) -> u16 {
    if cur as int * 10 + d as int > 0xffff {
        0xffff
    } else {
        (cur * 10 + d as u16) as u16
    }
}

/// One step of the machine in `Ground` (also taken after an aborted UTF-8
/// sequence): C0 controls execute, printable ASCII prints, lead bytes start
/// UTF-8 collection, and ESC starts a sequence.
pub open spec fn spec_step_ground(p: ParserView, b: u8) -> (ParserView, Option<EventView>) {
    if b == 0x1b {
        (ParserView { state: ParserState::Escape, ..p }, None)
    } else if b < 0x20 {
        (p.to_ground(), Some(EventView::Execute(b)))
    } else if b < 0x7f {
        (p.to_ground(), Some(EventView::Print(b as char)))
    } else if 0xc2 <= b && b <= 0xdf {
        (
            ParserView {
                state: ParserState::Utf8,
                utf8_rem: 1,
                utf8_acc: (b & 0x1f) as u32,
                ..p
            },
            None,
        )
    } else if 0xe0 <= b && b <= 0xef {
        (
            ParserView {
                state: ParserState::Utf8,
                utf8_rem: 2,
                utf8_acc: (b & 0x0f) as u32,
                ..p
            },
            None,
        )
    } else if 0xf0 <= b && b <= 0xf4 {
        (
            ParserView {
                state: ParserState::Utf8,
                utf8_rem: 3,
                utf8_acc: (b & 0x07) as u32,
                ..p
            },
            None,
        )
    } else {
        (p.to_ground(), None)
    }
}

/// A Unicode scalar value: not a surrogate, not past the last plane.
pub open spec fn is_scalar_value(v: u32) -> bool {
    v <= 0x10ffff && !(0xd800 <= v && v <= 0xdfff)
}

/// One step of the whole machine: the next state and the event, if this
/// byte completes one.
pub open spec fn spec_step(p: ParserView, b: u8) -> (ParserView, Option<EventView>) {
    match p.state {
        ParserState::Ground => spec_step_ground(p, b),
        ParserState::Utf8 => {
            if 0x80 <= b && b <= 0xbf {
                let acc = (p.utf8_acc * 64 + (b & 0x3f) as u32) as u32;
                if p.utf8_rem <= 1 {
                    if is_scalar_value(acc) {
                        (p.to_ground(), Some(EventView::Print(acc as char)))
                    } else {
                        (p.to_ground(), None)
                    }
                } else {
                    (
                        ParserView {
                            utf8_rem: (p.utf8_rem - 1) as u8,
                            utf8_acc: acc,
                            ..p
                        },
                        None,
                    )
                }
            } else {
                spec_step_ground(p.to_ground(), b)
            }
        },
        ParserState::Escape => {
            if b == 0x5b {
                (p.enter_csi(), None)
            } else if b == 0x5d {
                (p.enter_osc(), None)
            } else if b == 0x50 {
                (ParserView { state: ParserState::DcsEntry, ..p }, None)
            } else if b == 0x1b {
                (p, None)
            } else if b == 0x18 || b == 0x1a {
                (p.to_ground(), None)
            } else if b < 0x20 {
                (p, Some(EventView::Execute(b)))
            } else if b < 0x30 {
                (p, None)
            } else if b < 0x7f {
                (p.to_ground(), Some(EventView::Esc(b)))
            } else {
                (p, None)
            }
        },
        ParserState::CsiParam => {
            if b == 0x1b {
                (ParserView { state: ParserState::Escape, ..p }, None)
            } else if b == 0x18 || b == 0x1a {
                (p.to_ground(), None)
            } else if b < 0x20 {
                (p, Some(EventView::Execute(b)))
            } else if 0x30 <= b && b <= 0x39 {
                if p.sub_ignore {
                    (p, None)
                } else {
                    (
                        ParserView {
                            cur: sat_param(p.cur, (b - 0x30) as u8),
                            cur_set: true,
                            ..p
                        },
                        None,
                    )
                }
            } else if b == 0x3b {
                (
                    ParserView {
                        params: if p.params.len() < MAX_PARAMS {
                            p.params.push(p.cur)
                        } else {
                            p.params
                        },
                        cur: 0,
                        cur_set: false,
                        sub_ignore: false,
                        ..p
                    },
                    None,
                )
            } else if b == 0x3a {
                (ParserView { sub_ignore: true, ..p }, None)
            } else if 0x3c <= b && b <= 0x3f {
                (ParserView { private: true, ..p }, None)
            } else if 0x20 <= b && b <= 0x2f {
                (ParserView { state: ParserState::CsiIntermediate, ..p }, None)
            } else if is_csi_final(b) {
                (
                    ParserView { state: ParserState::Ground, params: Seq::empty(), ..p },
                    Some(p.csi_event(b)),
                )
            } else {
                (p, None)
            }
        },
        ParserState::CsiIntermediate => {
            if b == 0x1b {
                (ParserView { state: ParserState::Escape, ..p }, None)
            } else if b == 0x18 || b == 0x1a {
                (p.to_ground(), None)
            } else if b < 0x20 {
                (p, Some(EventView::Execute(b)))
            } else if 0x20 <= b && b <= 0x2f {
                (p, None)
            } else if is_csi_final(b) {
                (
                    ParserView { state: ParserState::Ground, params: Seq::empty(), ..p },
                    Some(p.csi_event(b)),
                )
            } else {
                (ParserView { state: ParserState::CsiIgnore, ..p }, None)
            }
        },
        ParserState::CsiIgnore => {
            if b == 0x1b {
                (ParserView { state: ParserState::Escape, ..p }, None)
            } else if b == 0x18 || b == 0x1a {
                (p.to_ground(), None)
            } else if b < 0x20 {
                (p, Some(EventView::Execute(b)))
            } else if is_csi_final(b) {
                (p.to_ground(), None)
            } else {
                (p, None)
            }
        },
        ParserState::OscString => {
            if b == 0x07 {
                (
                    ParserView { state: ParserState::Ground, osc_payload: Seq::empty(), ..p },
                    Some(p.osc_event()),
                )
            } else if b == 0x1b {
                (
                    ParserView { state: ParserState::Escape, osc_payload: Seq::empty(), ..p },
                    Some(p.osc_event()),
                )
            } else if b == 0x18 || b == 0x1a {
                (p.to_ground(), None)
            } else if b < 0x20 {
                (p, None)
            } else if !p.osc_in_payload {
                if b == 0x3b {
                    (ParserView { osc_in_payload: true, ..p }, None)
                } else if 0x30 <= b && b <= 0x39 {
                    (
                        ParserView {
                            osc_code: sat_param(p.osc_code, (b - 0x30) as u8),
                            ..p
                        },
                        None,
                    )
                } else {
                    (ParserView { osc_code_ok: false, ..p }, None)
                }
            } else {
                if p.osc_payload.len() < MAX_OSC_LEN {
                    (ParserView { osc_payload: p.osc_payload.push(b), ..p }, None)
                } else {
                    (p, None)
                }
            }
        },
        ParserState::DcsEntry => {
            if b == 0x1b {
                (ParserView { state: ParserState::Escape, ..p }, None)
            } else if b == 0x18 || b == 0x1a {
                (p.to_ground(), None)
            } else if is_csi_final(b) {
                (ParserView { state: ParserState::DcsPassthrough, ..p }, None)
            } else {
                (p, None)
            }
        },
        ParserState::DcsPassthrough => {
            if b == 0x1b {
                (ParserView { state: ParserState::Escape, ..p }, None)
            } else if b == 0x18 || b == 0x1a {
                (p.to_ground(), None)
            } else {
                (p, None)
            }
        },
    }
}

/// The byte-stream parser: the machine state between bytes.
pub struct AnsiParser {
    pub state: ParserState,
    pub params: Vec<u16>,
    pub cur: u16,
    pub cur_set: bool,
    pub sub_ignore: bool,
    pub private: bool,
    pub osc_code: u16,
    pub osc_code_ok: bool,
    pub osc_in_payload: bool,
    pub osc_payload: Vec<u8>,
    pub utf8_rem: u8,
    pub utf8_acc: u32,
}

impl View for AnsiParser {
    type V = ParserView;

    open spec fn view(&self) -> ParserView {
        ParserView {
            state: self.state,
            params: self.params@,
            cur: self.cur,
            cur_set: self.cur_set,
            sub_ignore: self.sub_ignore,
            private: self.private,
            osc_code: self.osc_code,
            osc_code_ok: self.osc_code_ok,
            osc_in_payload: self.osc_in_payload,
            osc_payload: self.osc_payload@,
            utf8_rem: self.utf8_rem,
            utf8_acc: self.utf8_acc,
        }
    }
}

/// Relies on `char::from_u32`: a valid Unicode scalar value converts to
/// exactly its character.
#[verifier::external_body]
fn scalar_to_char(v: u32) -> (c: char)
    requires
        is_scalar_value(v),
    ensures
        c == (v as char),
{
    match char::from_u32(v) {
        Some(c) => c,
        None => ' ',
    }
}

impl Default for AnsiParser {
    /// A parser at the start of the stream.
    fn default() -> (p: AnsiParser)
        ensures
            p@ == ParserView::initial(),
    {
        AnsiParser::new()
    }
}

impl AnsiParser {
    /// Creates a parser at the start of the stream.
    pub fn new() -> (p: AnsiParser)
        ensures
            p@ == ParserView::initial(),
    {
        let p = AnsiParser {
            state: ParserState::Ground,
            params: Vec::new(),
            cur: 0,
            cur_set: false,
            sub_ignore: false,
            private: false,
            osc_code: 0,
            osc_code_ok: true,
            osc_in_payload: false,
            osc_payload: Vec::new(),
            utf8_rem: 0,
            utf8_acc: 0,
        };
        proof {
            assert(p@ =~= ParserView::initial());
        }
        p
    }

    /// Builds the parameter list for a CSI dispatch.
    fn take_final_params(&mut self) -> (r: Vec<u16>)
        ensures
            r@ == old(self)@.final_params(),
            final(self)@ == (ParserView { params: Seq::empty(), ..old(self)@ }),
    {
        let mut r: Vec<u16> = Vec::new();
        core::mem::swap(&mut r, &mut self.params);
        if self.cur_set || r.len() > 0 {
            if r.len() < MAX_PARAMS {
                r.push(self.cur);
            }
        }
        proof {
            assert(final(self)@ =~= (ParserView { params: Seq::empty(), ..old(self)@ }));
        }
        r
    }

    /// Steps the machine in `Ground` on one byte.
    fn step_ground(&mut self, b: u8) -> (e: Option<Event>)
        ensures
            final(self)@ == spec_step_ground(old(self)@, b).0,
            match e {
                Some(ev) => spec_step_ground(old(self)@, b).1 == Some(ev@),
                None => spec_step_ground(old(self)@, b).1 is None,
            },
    {
        self.state = ParserState::Ground;
        if b == 0x1b {
            self.state = ParserState::Escape;
            None
        } else if b < 0x20 {
            Some(Event::Execute(b))
        } else if b < 0x7f {
            Some(Event::Print(b as char))
        } else if 0xc2 <= b && b <= 0xdf {
            self.state = ParserState::Utf8;
            self.utf8_rem = 1;
            self.utf8_acc = (b & 0x1f) as u32;
            None
        } else if 0xe0 <= b && b <= 0xef {
            self.state = ParserState::Utf8;
            self.utf8_rem = 2;
            self.utf8_acc = (b & 0x0f) as u32;
            None
        } else if 0xf0 <= b && b <= 0xf4 {
            self.state = ParserState::Utf8;
            self.utf8_rem = 3;
            self.utf8_acc = (b & 0x07) as u32;
            None
        } else {
            None
        }
    }

    /// Feeds one byte to the machine; returns the event it completes, if
    /// any.
    pub fn advance_byte(&mut self, b: u8) -> (e: Option<Event>)
        ensures
            final(self)@ == spec_step(old(self)@, b).0,
            match e {
                Some(ev) => spec_step(old(self)@, b).1 == Some(ev@),
                None => spec_step(old(self)@, b).1 is None,
            },
    {
        match self.state {
            ParserState::Ground => self.step_ground(b),
            ParserState::Utf8 => {
                if 0x80 <= b && b <= 0xbf {
                    let acc64: u64 = self.utf8_acc as u64 * 64 + (b & 0x3f) as u64;
                    let acc: u32 = acc64 as u32;
                    if self.utf8_rem <= 1 {
                        self.state = ParserState::Ground;
                        if acc <= 0x10ffff && !(0xd800 <= acc && acc <= 0xdfff) {
                            let c = scalar_to_char(acc);
                            Some(Event::Print(c))
                        } else {
                            None
                        }
                    } else {
                        self.utf8_rem = self.utf8_rem - 1;
                        self.utf8_acc = acc;
                        None
                    }
                } else {
                    self.state = ParserState::Ground;
                    self.step_ground(b)
                }
            },
            ParserState::Escape => {
                if b == 0x5b {
                    self.state = ParserState::CsiParam;
                    self.params = Vec::new();
                    self.cur = 0;
                    self.cur_set = false;
                    self.sub_ignore = false;
                    self.private = false;
                    proof {
                        assert(self@ =~= spec_step(old(self)@, b).0);
                    }
                    None
                } else if b == 0x5d {
                    self.state = ParserState::OscString;
                    self.osc_code = 0;
                    self.osc_code_ok = true;
                    self.osc_in_payload = false;
                    self.osc_payload = Vec::new();
                    proof {
                        assert(self@ =~= spec_step(old(self)@, b).0);
                    }
                    None
                } else if b == 0x50 {
                    self.state = ParserState::DcsEntry;
                    None
                } else if b == 0x1b {
                    None
                } else if b == 0x18 || b == 0x1a {
                    self.state = ParserState::Ground;
                    None
                } else if b < 0x20 {
                    Some(Event::Execute(b))
                } else if b < 0x30 {
                    None
                } else if b < 0x7f {
                    self.state = ParserState::Ground;
                    Some(Event::Esc(b))
                } else {
                    None
                }
            },
            ParserState::CsiParam => {
                if b == 0x1b {
                    self.state = ParserState::Escape;
                    None
                } else if b == 0x18 || b == 0x1a {
                    self.state = ParserState::Ground;
                    None
                } else if b < 0x20 {
                    Some(Event::Execute(b))
                } else if 0x30 <= b && b <= 0x39 {
                    if self.sub_ignore {
                        None
                    } else {
                        let d = b - 0x30;
                        let wide: u32 = self.cur as u32 * 10 + d as u32;
                        self.cur = if wide > 0xffff {
                            0xffff
                        } else {
                            wide as u16
                        };
                        self.cur_set = true;
                        None
                    }
                } else if b == 0x3b {
                    if self.params.len() < MAX_PARAMS {
                        let c = self.cur;
                        self.params.push(c);
                    }
                    self.cur = 0;
                    self.cur_set = false;
                    self.sub_ignore = false;
                    None
                } else if b == 0x3a {
                    self.sub_ignore = true;
                    None
                } else if 0x3c <= b && b <= 0x3f {
                    self.private = true;
                    None
                } else if 0x20 <= b && b <= 0x2f {
                    self.state = ParserState::CsiIntermediate;
                    None
                } else if 0x40 <= b && b <= 0x7e {
                    let params = self.take_final_params();
                    let private = self.private;
                    self.state = ParserState::Ground;
                    Some(Event::Csi { params, private, final_byte: b })
                } else {
                    None
                }
            },
            ParserState::CsiIntermediate => {
                if b == 0x1b {
                    self.state = ParserState::Escape;
                    None
                } else if b == 0x18 || b == 0x1a {
                    self.state = ParserState::Ground;
                    None
                } else if b < 0x20 {
                    Some(Event::Execute(b))
                } else if 0x20 <= b && b <= 0x2f {
                    None
                } else if 0x40 <= b && b <= 0x7e {
                    let params = self.take_final_params();
                    let private = self.private;
                    self.state = ParserState::Ground;
                    Some(Event::Csi { params, private, final_byte: b })
                } else {
                    self.state = ParserState::CsiIgnore;
                    None
                }
            },
            ParserState::CsiIgnore => {
                if b == 0x1b {
                    self.state = ParserState::Escape;
                    None
                } else if b == 0x18 || b == 0x1a {
                    self.state = ParserState::Ground;
                    None
                } else if b < 0x20 {
                    Some(Event::Execute(b))
                } else if 0x40 <= b && b <= 0x7e {
                    self.state = ParserState::Ground;
                    None
                } else {
                    None
                }
            },
            ParserState::OscString => {
                if b == 0x07 {
                    let payload = self.take_osc_payload();
                    let code = if self.osc_code_ok {
                        self.osc_code
                    } else {
                        0
                    };
                    let has_payload = self.osc_in_payload;
                    self.state = ParserState::Ground;
                    Some(Event::Osc { code, payload, has_payload })
                } else if b == 0x1b {
                    let payload = self.take_osc_payload();
                    let code = if self.osc_code_ok {
                        self.osc_code
                    } else {
                        0
                    };
                    let has_payload = self.osc_in_payload;
                    self.state = ParserState::Escape;
                    Some(Event::Osc { code, payload, has_payload })
                } else if b == 0x18 || b == 0x1a {
                    self.state = ParserState::Ground;
                    None
                } else if b < 0x20 {
                    None
                } else if !self.osc_in_payload {
                    if b == 0x3b {
                        self.osc_in_payload = true;
                        None
                    } else if 0x30 <= b && b <= 0x39 {
                        let d = b - 0x30;
                        let wide: u32 = self.osc_code as u32 * 10 + d as u32;
                        self.osc_code = if wide > 0xffff {
                            0xffff
                        } else {
                            wide as u16
                        };
                        None
                    } else {
                        self.osc_code_ok = false;
                        None
                    }
                } else {
                    if self.osc_payload.len() < MAX_OSC_LEN {
                        self.osc_payload.push(b);
                    }
                    None
                }
            },
            ParserState::DcsEntry => {
                if b == 0x1b {
                    self.state = ParserState::Escape;
                    None
                } else if b == 0x18 || b == 0x1a {
                    self.state = ParserState::Ground;
                    None
                } else if 0x40 <= b && b <= 0x7e {
                    self.state = ParserState::DcsPassthrough;
                    None
                } else {
                    None
                }
            },
            ParserState::DcsPassthrough => {
                if b == 0x1b {
                    self.state = ParserState::Escape;
                    None
                } else if b == 0x18 || b == 0x1a {
                    self.state = ParserState::Ground;
                    None
                } else {
                    None
                }
            },
        }
    }

    /// Hands the accumulated OSC payload out, leaving the buffer empty.
    fn take_osc_payload(&mut self) -> (r: Vec<u8>)
        ensures
            r@ == old(self)@.osc_payload,
            final(self)@ == (ParserView { osc_payload: Seq::empty(), ..old(self)@ }),
    {
        let mut r: Vec<u8> = Vec::new();
        core::mem::swap(&mut r, &mut self.osc_payload);
        proof {
            assert(final(self)@ =~= (ParserView { osc_payload: Seq::empty(), ..old(self)@ }));
        }
        r
    }
}


/// The parameter at `i`, or the default where the list is shorter.
pub open spec fn param_or(params: Seq<u16>, i: int, d: u16) -> u16 {
    if 0 <= i < params.len() {
        params[i]
    } else {
        d
    }
}

/// The parameter at `i`, or the default where the slice is shorter.
pub fn param_get(params: &[u16], i: usize, d: u16) -> (r: u16)
    ensures
        r == param_or(params@, i as int, d),
{
    if i < params.len() {
        params[i]
    } else {
        d
    }
}

/// How many extra parameters an extended-color introducer consumes: 2 for
/// a palette color, 4 for a truecolor triple.
pub open spec fn spec_extended_color_params(params: Seq<u16>) -> int {
    if params.len() < 2 {
        0
    } else if params[1] == 5 {
        2
    } else if params[1] == 2 {
        4
    } else {
        0
    }
}

/// How many extra parameters an extended-color introducer consumes.
pub fn extended_color_params(params: &[u16]) -> (r: usize)
    ensures
        r as int == spec_extended_color_params(params@),
{
    if params.len() < 2 {
        0
    } else if params[1] == 5 {
        2
    } else if params[1] == 2 {
        4
    } else {
        0
    }
}

/// The color selected by an extended-color parameter list starting at the
/// 38/48 introducer: `;5;n` from the 256-color palette, `;2;r;g;b` as a
/// truecolor triple, `None` when malformed or truncated.
pub open spec fn spec_parse_extended_color(params: Seq<u16>) -> Option<Color> {
    if params.len() < 2 {
        None
    } else if params[1] == 5 {
        if params.len() >= 3 {
            Some(Color::spec_from_ansi256(params[2] as u8))
        } else {
            None
        }
    } else if params[1] == 2 {
        if params.len() >= 5 {
            Some(Color::spec_rgb(params[2] as u8, params[3] as u8, params[4] as u8))
        } else {
            None
        }
    } else {
        None
    }
}

/// Parses an extended-color parameter list starting at its 38/48
/// introducer.
pub fn parse_extended_color(params: &[u16]) -> (r: Option<Color>)
    ensures
        r == spec_parse_extended_color(params@),
{
    if params.len() < 2 {
        None
    } else if params[1] == 5 {
        if params.len() >= 3 {
            Some(Color::from_ansi256(#[verifier::truncate] (params[2] as u8)))
        } else {
            None
        }
    } else if params[1] == 2 {
        if params.len() >= 5 {
            Some(
                Color::rgb(
                    #[verifier::truncate] (params[2] as u8),
                    #[verifier::truncate] (params[3] as u8),
                    #[verifier::truncate] (params[4] as u8),
                ),
            )
        } else {
            None
        }
    } else {
        None
    }
}

/// One of the eight named colors the plain SGR codes select.
pub open spec fn spec_named_color(idx: u16) -> Color {
    if idx == 0 {
        Color::spec_rgb(0, 0, 0)
    } else if idx == 1 {
        Color::spec_rgb(255, 0, 0)
    } else if idx == 2 {
        Color::spec_rgb(0, 255, 0)
    } else if idx == 3 {
        Color::spec_rgb(255, 255, 0)
    } else if idx == 4 {
        Color::spec_rgb(0, 0, 255)
    } else if idx == 5 {
        Color::spec_rgb(255, 0, 255)
    } else if idx == 6 {
        Color::spec_rgb(0, 255, 255)
    } else {
        Color::spec_rgb(255, 255, 255)
    }
}

/// One of the eight named colors the plain SGR codes select.
pub fn named_color(idx: u16) -> (c: Color)
    ensures
        c == spec_named_color(idx),
{
    if idx == 0 {
        Color::rgb(0, 0, 0)
    } else if idx == 1 {
        Color::rgb(255, 0, 0)
    } else if idx == 2 {
        Color::rgb(0, 255, 0)
    } else if idx == 3 {
        Color::rgb(255, 255, 0)
    } else if idx == 4 {
        Color::rgb(0, 0, 255)
    } else if idx == 5 {
        Color::rgb(255, 0, 255)
    } else if idx == 6 {
        Color::rgb(0, 255, 255)
    } else {
        Color::rgb(255, 255, 255)
    }
}

/// One of the bright palette colors, by its offset from the first.
pub open spec fn spec_bright_color(idx: u16) -> Color {
    if idx == 0 {
        Color::spec_rgb(128, 128, 128)
    } else if idx == 1 {
        Color::spec_rgb(255, 0, 0)
    } else if idx == 2 {
        Color::spec_rgb(0, 255, 0)
    } else if idx == 3 {
        Color::spec_rgb(255, 255, 0)
    } else if idx == 4 {
        Color::spec_rgb(0, 0, 255)
    } else if idx == 5 {
        Color::spec_rgb(255, 0, 255)
    } else if idx == 6 {
        Color::spec_rgb(0, 255, 255)
    } else {
        Color::spec_rgb(255, 255, 255)
    }
}

/// One of the bright palette colors, by its offset from the first.
pub fn bright_color(idx: u16) -> (c: Color)
    ensures
        c == spec_bright_color(idx),
{
    if idx == 0 {
        Color::rgb(128, 128, 128)
    } else if idx == 1 {
        Color::rgb(255, 0, 0)
    } else if idx == 2 {
        Color::rgb(0, 255, 0)
    } else if idx == 3 {
        Color::rgb(255, 255, 0)
    } else if idx == 4 {
        Color::rgb(0, 0, 255)
    } else if idx == 5 {
        Color::rgb(255, 0, 255)
    } else if idx == 6 {
        Color::rgb(0, 255, 255)
    } else {
        Color::rgb(255, 255, 255)
    }
}

/// The pen after one SGR parameter (without extended colors): which flag
/// it sets or clears, or which plain color it selects.
pub open spec fn spec_sgr_simple(style: CellStyle, p: u16) -> CellStyle {
    if p == 0 {
        CellStyle::spec_default()
    } else if p == 1 {
        CellStyle { flags: style.flags.spec_insert(crate::grid::FLAG_BOLD), ..style }
    } else if p == 3 {
        CellStyle { flags: style.flags.spec_insert(crate::grid::FLAG_ITALIC), ..style }
    } else if p == 4 {
        CellStyle { flags: style.flags.spec_insert(crate::grid::FLAG_UNDERLINE), ..style }
    } else if p == 5 {
        CellStyle { flags: style.flags.spec_insert(crate::grid::FLAG_BLINK), ..style }
    } else if p == 7 {
        CellStyle { flags: style.flags.spec_insert(crate::grid::FLAG_INVERSE), ..style }
    } else if p == 8 {
        CellStyle { flags: style.flags.spec_insert(crate::grid::FLAG_HIDDEN), ..style }
    } else if p == 9 {
        CellStyle { flags: style.flags.spec_insert(crate::grid::FLAG_STRIKEOUT), ..style }
    } else if p == 22 {
        CellStyle { flags: style.flags.spec_remove(crate::grid::FLAG_BOLD), ..style }
    } else if p == 23 {
        CellStyle { flags: style.flags.spec_remove(crate::grid::FLAG_ITALIC), ..style }
    } else if p == 24 {
        CellStyle { flags: style.flags.spec_remove(crate::grid::FLAG_UNDERLINE), ..style }
    } else if p == 25 {
        CellStyle { flags: style.flags.spec_remove(crate::grid::FLAG_BLINK), ..style }
    } else if p == 27 {
        CellStyle { flags: style.flags.spec_remove(crate::grid::FLAG_INVERSE), ..style }
    } else if p == 28 {
        CellStyle { flags: style.flags.spec_remove(crate::grid::FLAG_HIDDEN), ..style }
    } else if p == 29 {
        CellStyle { flags: style.flags.spec_remove(crate::grid::FLAG_STRIKEOUT), ..style }
    } else if 30 <= p && p <= 37 {
        CellStyle { fg: spec_named_color((p - 30) as u16), ..style }
    } else if p == 39 {
        CellStyle { fg: Color::spec_emerald(), ..style }
    } else if 40 <= p && p <= 47 {
        CellStyle { bg: spec_named_color((p - 40) as u16), ..style }
    } else if p == 49 {
        CellStyle { bg: Color::spec_black(), ..style }
    } else if 90 <= p && p <= 97 {
        CellStyle { fg: spec_bright_color((p - 90) as u16), ..style }
    } else if 100 <= p && p <= 107 {
        CellStyle { bg: spec_bright_color((p - 100) as u16), ..style }
    } else {
        style
    }
}

/// The pen after walking the SGR parameter list from position `i`.
pub open spec fn spec_sgr_from(style: CellStyle, params: Seq<u16>, i: int) -> CellStyle
    decreases params.len() - i,
{
    if i < 0 || i >= params.len() {
        style
    } else {
        let p = params[i];
        if p == 38 || p == 48 {
            let sub = params.subrange(i, params.len() as int);
            match spec_parse_extended_color(sub) {
                Some(c) => {
                    let st = if p == 38 {
                        CellStyle { fg: c, ..style }
                    } else {
                        CellStyle { bg: c, ..style }
                    };
                    spec_sgr_from(st, params, i + spec_extended_color_params(sub) + 1)
                },
                None => spec_sgr_from(style, params, i + 1),
            }
        } else {
            spec_sgr_from(spec_sgr_simple(style, p), params, i + 1)
        }
    }
}

/// The pen after a whole SGR sequence; an empty parameter list resets it.
pub open spec fn spec_handle_sgr(style: CellStyle, params: Seq<u16>) -> CellStyle {
    if params.len() == 0 {
        CellStyle::spec_default()
    } else {
        spec_sgr_from(style, params, 0)
    }
}

/// The terminal after one set/reset mode parameter.
pub open spec fn spec_apply_mode_param(t: TermView, p: u16, enable: bool, private: bool) -> TermView {
    if private {
        if p == 1 {
            TermView {
                mode: if enable {
                    t.mode | MODE_CURSOR_KEYS_APP
                } else {
                    t.mode & !MODE_CURSOR_KEYS_APP
                },
                ..t
            }
        } else if p == 25 {
            TermView { cursor: Cursor { visible: enable, ..t.cursor }, ..t }
        } else if p == 7 {
            TermView {
                mode: if enable {
                    t.mode | MODE_AUTO_WRAP
                } else {
                    t.mode & !MODE_AUTO_WRAP
                },
                ..t
            }
        } else if p == 1049 || p == 47 || p == 1047 {
            if enable {
                t.op_enter_alt_screen()
            } else {
                t.op_exit_alt_screen()
            }
        } else if p == 2004 {
            TermView {
                mode: if enable {
                    t.mode | MODE_BRACKETED_PASTE
                } else {
                    t.mode & !MODE_BRACKETED_PASTE
                },
                ..t
            }
        } else if p == 1000 || p == 1002 || p == 1003 || p == 1006 || p == 1015 {
            TermView {
                mode: if enable {
                    t.mode | MODE_MOUSE_TRACKING
                } else {
                    t.mode & !MODE_MOUSE_TRACKING
                },
                ..t
            }
        } else {
            t
        }
    } else {
        if p == 4 {
            TermView {
                mode: if enable {
                    t.mode | MODE_INSERT
                } else {
                    t.mode & !MODE_INSERT
                },
                ..t
            }
        } else {
            t
        }
    }
}

/// The terminal after walking a set/reset mode parameter list from `i`.
pub open spec fn spec_handle_mode(
    t: TermView,
    params: Seq<u16>,
    i: int,
    enable: bool,
    private: bool,
) -> TermView
    decreases params.len() - i,
{
    if i < 0 || i >= params.len() {
        t
    } else {
        spec_handle_mode(
            spec_apply_mode_param(t, params[i], enable, private),
            params,
            i + 1,
            enable,
            private,
        )
    }
}

/// The terminal after one complete CSI sequence.
pub open spec fn spec_apply_csi(t: TermView, params: Seq<u16>, private: bool, fb: u8) -> TermView {
    let n = param_or(params, 0, 1) as int;
    if fb == 0x41 {
        t.op_move_cursor(0, -n)
    } else if fb == 0x42 {
        t.op_move_cursor(0, n)
    } else if fb == 0x43 {
        t.op_move_cursor(n, 0)
    } else if fb == 0x44 {
        t.op_move_cursor(-n, 0)
    } else if fb == 0x45 {
        t.op_move_cursor(0, n).op_carriage_return()
    } else if fb == 0x46 {
        t.op_move_cursor(0, -n).op_carriage_return()
    } else if fb == 0x47 {
        t.op_move_cursor_to(n - 1, t.cursor.row as int)
    } else if fb == 0x48 || fb == 0x66 {
        let row = param_or(params, 0, 1) as int - 1;
        let col = param_or(params, 1, 1) as int - 1;
        t.op_move_cursor_to(if col < 0 { 0 } else { col }, if row < 0 { 0 } else { row })
    } else if fb == 0x4a {
        let m = param_or(params, 0, 0);
        if m == 0 {
            t.op_erase_display_to_end()
        } else if m == 1 {
            t.op_erase_display_to_start()
        } else if m == 2 || m == 3 {
            t.op_erase_display()
        } else {
            t
        }
    } else if fb == 0x4b {
        let m = param_or(params, 0, 0);
        if m == 0 {
            t.op_erase_line_to_end()
        } else if m == 1 {
            t.op_erase_line_to_start()
        } else if m == 2 {
            t.op_erase_line()
        } else {
            t
        }
    } else if fb == 0x53 {
        t.op_scroll_up(n as nat)
    } else if fb == 0x54 {
        t.op_scroll_down(n as nat)
    } else if fb == 0x6d {
        TermView { style: spec_handle_sgr(t.style, params), ..t }
    } else if fb == 0x72 {
        let rows = t.active().rows;
        let p0 = param_or(params, 0, 1) as int;
        let top = if p0 < 1 {
            0
        } else {
            p0 - 1
        };
        let bp = param_or(params, 1, rows as u16) as int;
        let b0 = if bp < 1 {
            0
        } else {
            bp - 1
        };
        let bottom = if b0 > rows - 1 {
            rows - 1
        } else {
            b0
        };
        let t1 = if top <= bottom {
            TermView { scroll_top: top as nat, scroll_bottom: bottom as nat, ..t }
        } else {
            t
        };
        t1.op_move_cursor_to(0, 0)
    } else if fb == 0x73 {
        t.op_save_cursor()
    } else if fb == 0x75 {
        t.op_restore_cursor()
    } else if fb == 0x68 {
        spec_handle_mode(t, params, 0, true, private)
    } else if fb == 0x6c {
        spec_handle_mode(t, params, 0, false, private)
    } else if fb == 0x71 {
        let m = param_or(params, 0, 0);
        let shape = if m == 3 || m == 4 {
            CursorShape::Underline
        } else if m == 5 || m == 6 {
            CursorShape::Beam
        } else {
            CursorShape::Block
        };
        TermView { cursor: Cursor { shape, ..t.cursor }, ..t }
    } else if fb == 0x6e {
        let m = param_or(params, 0, 0);
        if m == 5 {
            t.op_queue_response(seq![0x1bu8, 0x5bu8, 0x30u8, 0x6eu8])
        } else if m == 6 {
            t.op_queue_response(t.cursor_report())
        } else {
            t
        }
    } else {
        t
    }
}

/// True for an ASCII hexadecimal digit.
pub open spec fn spec_is_hex(b: u8) -> bool {
    (0x30 <= b && b <= 0x39) || (0x41 <= b && b <= 0x46) || (0x61 <= b && b <= 0x66)
}

/// The value of an ASCII hexadecimal digit.
pub open spec fn spec_hex_val(b: u8) -> u8 {
    if 0x30 <= b && b <= 0x39 {
        (b - 0x30) as u8
    } else if 0x41 <= b && b <= 0x46 {
        (b - 0x41 + 10) as u8
    } else if 0x61 <= b && b <= 0x66 {
        (b - 0x61 + 10) as u8
    } else {
        0
    }
}

/// Percent-decoding over bytes: `%xy` with two hexadecimal digits becomes
/// the byte they name; a malformed escape keeps its characters; every
/// other byte becomes the character with its value.
pub open spec fn spec_url_decode(s: Seq<u8>) -> Seq<char>
    decreases s.len(),
{
    if s.len() == 0 {
        Seq::empty()
    } else if s[0] == 0x25 {
        if s.len() >= 3 {
            if spec_is_hex(s[1]) && spec_is_hex(s[2]) {
                seq![((spec_hex_val(s[1]) * 16 + spec_hex_val(s[2])) as u8) as char]
                    + spec_url_decode(s.skip(3))
            } else {
                seq!['%', s[1] as char, s[2] as char] + spec_url_decode(s.skip(3))
            }
        } else if s.len() == 2 {
            seq!['%', s[1] as char]
        } else {
            seq!['%']
        }
    } else {
        seq![s[0] as char] + spec_url_decode(s.skip(1))
    }
}

/// The position of the first `/` in the byte sequence.
pub open spec fn spec_first_slash(s: Seq<u8>) -> Option<int>
    decreases s.len(),
{
    if s.len() == 0 {
        None
    } else if s[0] == 0x2f {
        Some(0)
    } else {
        match spec_first_slash(s.drop_first()) {
            Some(i) => Some(i + 1),
            None => None,
        }
    }
}

/// The prefix bytes of a `file://` URL.
pub open spec fn spec_file_prefix() -> Seq<u8> {
    seq![0x66u8, 0x69u8, 0x6cu8, 0x65u8, 0x3au8, 0x2fu8, 0x2fu8]
}

/// The working-directory path carried by an OSC 7 `file://` URL: the part
/// from the first `/` after the host, percent-decoded; `None` when the
/// URL has another scheme or no path.
pub open spec fn spec_parse_osc7(url: Seq<u8>) -> Option<Seq<char>> {
    if url.len() >= 7 && url.subrange(0, 7) == spec_file_prefix() {
        let rest = url.skip(7);
        if rest.len() > 0 && rest[0] == 0x2f {
            Some(spec_url_decode(rest))
        } else {
            match spec_first_slash(rest) {
                Some(i) => Some(spec_url_decode(rest.skip(i))),
                None => None,
            }
        }
    } else {
        None
    }
}

/// The terminal after one parser event.
pub open spec fn spec_apply_event(t: TermView, e: EventView) -> TermView {
    match e {
        EventView::Print(c) => {
            if c == '\u{2020}' || c == '\u{2021}' {
                t
            } else {
                t.op_input_char(c)
            }
        },
        EventView::Execute(b) => {
            if b == 0x08 {
                t.op_backspace()
            } else if b == 0x09 {
                t.op_tab()
            } else if b == 0x0a || b == 0x0b || b == 0x0c {
                t.op_linefeed()
            } else if b == 0x0d {
                t.op_carriage_return()
            } else {
                t
            }
        },
        EventView::Csi { params, private, final_byte } => spec_apply_csi(
            t,
            params,
            private,
            final_byte,
        ),
        EventView::Esc(b) => {
            if b == 0x37 {
                t.op_save_cursor()
            } else if b == 0x38 {
                t.op_restore_cursor()
            } else if b == 0x44 {
                t.op_linefeed()
            } else if b == 0x45 {
                t.op_linefeed().op_carriage_return()
            } else if b == 0x4d {
                t.op_scroll_down(1)
            } else if b == 0x63 {
                TermView::new_view(t.grid.cols, t.grid.rows)
            } else {
                t
            }
        },
        EventView::Osc { code, payload, has_payload } => {
            if (code == 0 || code == 2) && has_payload {
                if vstd::utf8::valid_utf8(payload) {
                    TermView { title: vstd::utf8::decode_utf8(payload), ..t }
                } else {
                    t
                }
            } else if code == 7 && has_payload {
                match spec_parse_osc7(payload) {
                    Some(path) => TermView { cwd: path, ..t },
                    None => t,
                }
            } else {
                t
            }
        },
    }
}

/// The parser and terminal after consuming a whole byte stream.
pub open spec fn spec_run(p: ParserView, t: TermView, bytes: Seq<u8>) -> (ParserView, TermView)
    decreases bytes.len(),
{
    if bytes.len() == 0 {
        (p, t)
    } else {
        let (p1, ev) = spec_step(p, bytes[0]);
        let t1 = match ev {
            Some(e) => spec_apply_event(t, e),
            None => t,
        };
        spec_run(p1, t1, bytes.drop_first())
    }
}

/// Feeding a byte stream in two pieces reaches exactly the state that
/// feeding it whole reaches: the parser may be fed a buffer at a time or a
/// byte at a time with the same outcome.
pub proof fn lemma_process_chunked(p: ParserView, t: TermView, a: Seq<u8>, b: Seq<u8>)
    ensures
        spec_run(p, t, a + b) == ({
            let (p1, t1) = spec_run(p, t, a);
            spec_run(p1, t1, b)
        }),
    decreases a.len(),
{
    if a.len() == 0 {
        assert(a + b =~= b);
    } else {
        assert((a + b)[0] == a[0]);
        assert((a + b).drop_first() =~= a.drop_first() + b);
        let (p1, ev) = spec_step(p, a[0]);
        let t1 = match ev {
            Some(e) => spec_apply_event(t, e),
            None => t,
        };
        lemma_process_chunked(p1, t1, a.drop_first(), b);
    }
}

/// Relies on `str::from_utf8` and `String`'s `FromIterator`: succeeds
/// exactly on valid UTF-8 and yields its decoding.
#[verifier::external_body]
fn bytes_to_string(b: &Vec<u8>) -> (r: Option<String>)
    ensures
        (r is Some) == vstd::utf8::valid_utf8(b@),
        r matches Some(s) ==> s@ == vstd::utf8::decode_utf8(b@),
{
    match core::str::from_utf8(b.as_slice()) {
        Ok(s) => Some(s.to_string()),
        Err(_) => None,
    }
}

/// Relies on `String`'s `FromIterator` over chars: collects exactly the
/// given characters.
#[verifier::external_body]
pub(crate) fn string_from_chars(chars: &Vec<char>) -> (r: String)
    ensures
        r@ == chars@,
{
    chars.iter().collect()
}

/// Percent-decodes the bytes from position `i` on.
fn url_decode_from(s: &[u8], i: usize) -> (r: Vec<char>)
    requires
        i <= s@.len(),
    ensures
        r@ == spec_url_decode(s@.skip(i as int)),
    decreases s@.len() - i,
{
    let n = s.len();
    let mut out: Vec<char> = Vec::new();
    if i >= n {
        proof {
            assert(s@.skip(i as int) =~= Seq::<u8>::empty());
        }
        return out;
    }
    proof {
        assert(s@.skip(i as int)[0] == s@[i as int]);
    }
    let b0 = s[i];
    if b0 == 0x25 {
        if n - i >= 3 {
            let b1 = s[i + 1];
            let b2 = s[i + 2];
            proof {
                assert(s@.skip(i as int)[1] == s@[i + 1]);
                assert(s@.skip(i as int)[2] == s@[i + 2]);
                assert(s@.skip(i as int).skip(3) =~= s@.skip(i + 3));
            }
            if is_hex_digit(b1) && is_hex_digit(b2) {
                let v = hex_val(b1) * 16 + hex_val(b2);
                out.push(v as char);
            } else {
                out.push('%');
                out.push(b1 as char);
                out.push(b2 as char);
            }
            let mut rest = url_decode_from(s, i + 3);
            out.append(&mut rest);
            proof {
                assert(out@ =~= spec_url_decode(s@.skip(i as int)));
            }
            out
        } else if n - i == 2 {
            proof {
                assert(s@.skip(i as int)[1] == s@[i + 1]);
                assert(s@.skip(i as int).len() == 2);
            }
            out.push('%');
            let b1 = s[i + 1];
            out.push(b1 as char);
            proof {
                assert(out@ =~= spec_url_decode(s@.skip(i as int)));
            }
            out
        } else {
            proof {
                assert(s@.skip(i as int).len() == 1);
            }
            out.push('%');
            proof {
                assert(out@ =~= spec_url_decode(s@.skip(i as int)));
            }
            out
        }
    } else {
        out.push(b0 as char);
        let mut rest = url_decode_from(s, i + 1);
        out.append(&mut rest);
        proof {
            assert(s@.skip(i as int).skip(1) =~= s@.skip(i + 1));
            assert(out@ =~= spec_url_decode(s@.skip(i as int)));
        }
        out
    }
}

/// True for an ASCII hexadecimal digit.
fn is_hex_digit(b: u8) -> (r: bool)
    ensures
        r == spec_is_hex(b),
{
    (0x30 <= b && b <= 0x39) || (0x41 <= b && b <= 0x46) || (0x61 <= b && b <= 0x66)
}

/// The value of an ASCII hexadecimal digit.
fn hex_val(b: u8) -> (r: u8)
    requires
        spec_is_hex(b),
    ensures
        r == spec_hex_val(b),
        r < 16,
{
    if 0x30 <= b && b <= 0x39 {
        b - 0x30
    } else if 0x41 <= b && b <= 0x46 {
        b - 0x41 + 10
    } else {
        b - 0x61 + 10
    }
}

/// Percent-decodes a byte string into characters, one per byte.
pub fn url_decode(s: &[u8]) -> (r: Vec<char>)
    ensures
        r@ == spec_url_decode(s@),
{
    proof {
        assert(s@.skip(0) =~= s@);
    }
    url_decode_from(s, 0)
}

/// Extracts and percent-decodes the path of an OSC 7 `file://` URL.
pub fn parse_osc7_path(url: &[u8]) -> (r: Option<String>)
    ensures
        match r {
            Some(p) => spec_parse_osc7(url@) matches Some(q) && p@ == q,
            None => spec_parse_osc7(url@) is None,
        },
{
    let n = url.len();
    if n < 7 {
        return None;
    }
    let pfx: [u8; 7] = [0x66, 0x69, 0x6c, 0x65, 0x3a, 0x2f, 0x2f];
    let mut k: usize = 0;
    while k < 7
        invariant
            k <= 7,
            n == url@.len(),
            n >= 7,
            pfx@ == spec_file_prefix(),
            forall|j: int| 0 <= j < k ==> url@[j] == spec_file_prefix()[j],
        decreases 7 - k,
    {
        if url[k] != pfx[k] {
            proof {
                assert(url@.subrange(0, 7)[k as int] != spec_file_prefix()[k as int]);
            }
            return None;
        }
        k = k + 1;
    }
    proof {
        assert(url@.subrange(0, 7) =~= spec_file_prefix());
    }
    // find the path start
    if n > 7 && url[7] == 0x2f {
        proof {
            assert(url@.skip(7)[0] == url@[7]);
        }
        let chars = url_decode_from(url, 7);
        return Some(string_from_chars(&chars));
    }
    // no leading slash: skip the host part
    let mut j: usize = 7;
    while j < n
        invariant
            7 <= j <= n,
            n == url@.len(),
            n >= 7,
            n > 7 ==> url@[7] != 0x2f,
            url@.subrange(0, 7) == spec_file_prefix(),
            forall|m: int| 7 <= m < j ==> url@[m] != 0x2f,
        decreases n - j,
    {
        if url[j] == 0x2f {
            proof {
                let rest = url@.skip(7);
                assert forall|m: int| 0 <= m < j - 7 implies rest[m] != 0x2f by {
                    assert(rest[m] == url@[7 + m]);
                }
                assert(rest[j - 7] == url@[j as int]);
                lemma_first_slash_at(rest, j - 7);
                assert(rest.skip(j - 7) =~= url@.skip(j as int));
                assert(rest.len() > 0 ==> rest[0] == url@[7]);
            }
            let chars = url_decode_from(url, j);
            return Some(string_from_chars(&chars));
        }
        j = j + 1;
    }
    proof {
        let rest = url@.skip(7);
        assert forall|m: int| 0 <= m < rest.len() implies rest[m] != 0x2f by {
            assert(rest[m] == url@[7 + m]);
        }
        lemma_first_slash_none(rest);
    }
    None
}

/// A sequence whose first `/` stands at `i` has that as its first slash.
proof fn lemma_first_slash_at(s: Seq<u8>, i: int)
    requires
        0 <= i < s.len(),
        s[i] == 0x2f,
        forall|m: int| 0 <= m < i ==> s[m] != 0x2f,
    ensures
        spec_first_slash(s) == Some(i),
    decreases i,
{
    if i == 0 {
    } else {
        lemma_first_slash_at(s.drop_first(), i - 1);
    }
}

/// A sequence without `/` has no first slash.
proof fn lemma_first_slash_none(s: Seq<u8>)
    requires
        forall|m: int| 0 <= m < s.len() ==> s[m] != 0x2f,
    ensures
        spec_first_slash(s) is None,
    decreases s.len(),
{
    if s.len() == 0 {
    } else {
        lemma_first_slash_none(s.drop_first());
    }
}

impl Terminal {
    /// Applies an SGR parameter list to the current pen.
    pub fn handle_sgr(&mut self, params: &[u16])
        requires
            old(self).wf(),
        ensures
            final(self).wf(),
            final(self)@ == (TermView {
                style: spec_handle_sgr(old(self)@.style, params@),
                ..old(self)@
            }),
    {
        if params.len() == 0 {
            self.current_style = CellStyle::default();
            proof {
                assert(self@ =~= (TermView {
                    style: spec_handle_sgr(old(self)@.style, params@),
                    ..old(self)@
                }));
            }
            return ;
        }
        let n = params.len();
        let mut i: usize = 0;
        while i < n
            invariant
                old(self).wf(),
                self.wf(),
                n == params@.len(),
                i <= n,
                self@ == (TermView { style: self@.style, ..old(self)@ }),
                spec_sgr_from(old(self)@.style, params@, 0) == spec_sgr_from(
                    self@.style,
                    params@,
                    i as int,
                ),
            decreases n - i,
        {
            let p = params[i];
            if p == 38 || p == 48 {
                let sub = &params[i..n];
                proof {
                    assert(sub@ =~= params@.subrange(i as int, n as int));
                }
                match parse_extended_color(sub) {
                    Some(c) => {
                        if p == 38 {
                            self.current_style.fg = c;
                        } else {
                            self.current_style.bg = c;
                        }
                        let skip = extended_color_params(sub);
                        i = i + skip;
                    },
                    None => {},
                }
            } else if p == 0 {
                self.current_style = CellStyle::default();
            } else if p == 1 {
                self.current_style.flags.insert(crate::grid::FLAG_BOLD);
            } else if p == 3 {
                self.current_style.flags.insert(crate::grid::FLAG_ITALIC);
            } else if p == 4 {
                self.current_style.flags.insert(crate::grid::FLAG_UNDERLINE);
            } else if p == 5 {
                self.current_style.flags.insert(crate::grid::FLAG_BLINK);
            } else if p == 7 {
                self.current_style.flags.insert(crate::grid::FLAG_INVERSE);
            } else if p == 8 {
                self.current_style.flags.insert(crate::grid::FLAG_HIDDEN);
            } else if p == 9 {
                self.current_style.flags.insert(crate::grid::FLAG_STRIKEOUT);
            } else if p == 22 {
                self.current_style.flags.remove(crate::grid::FLAG_BOLD);
            } else if p == 23 {
                self.current_style.flags.remove(crate::grid::FLAG_ITALIC);
            } else if p == 24 {
                self.current_style.flags.remove(crate::grid::FLAG_UNDERLINE);
            } else if p == 25 {
                self.current_style.flags.remove(crate::grid::FLAG_BLINK);
            } else if p == 27 {
                self.current_style.flags.remove(crate::grid::FLAG_INVERSE);
            } else if p == 28 {
                self.current_style.flags.remove(crate::grid::FLAG_HIDDEN);
            } else if p == 29 {
                self.current_style.flags.remove(crate::grid::FLAG_STRIKEOUT);
            } else if 30 <= p && p <= 37 {
                self.current_style.fg = named_color(p - 30);
            } else if p == 39 {
                self.current_style.fg = Color::emerald();
            } else if 40 <= p && p <= 47 {
                self.current_style.bg = named_color(p - 40);
            } else if p == 49 {
                self.current_style.bg = Color::black();
            } else if 90 <= p && p <= 97 {
                self.current_style.fg = bright_color(p - 90);
            } else if 100 <= p && p <= 107 {
                self.current_style.bg = bright_color(p - 100);
            }
            i = i + 1;
        }
        proof {
            assert(self@ =~= (TermView {
                style: spec_handle_sgr(old(self)@.style, params@),
                ..old(self)@
            }));
        }
    }

    /// Sets or clears the modes a set/reset parameter list names.
    pub fn handle_mode(&mut self, enable: bool, params: &[u16], is_private: bool)
        requires
            old(self).wf(),
        ensures
            final(self).wf(),
            final(self)@ == spec_handle_mode(old(self)@, params@, 0, enable, is_private),
    {
        let n = params.len();
        let mut i: usize = 0;
        while i < n
            invariant
                old(self).wf(),
                self.wf(),
                n == params@.len(),
                i <= n,
                spec_handle_mode(old(self)@, params@, 0, enable, is_private) == spec_handle_mode(
                    self@,
                    params@,
                    i as int,
                    enable,
                    is_private,
                ),
            decreases n - i,
        {
            let p = params[i];
            if is_private {
                if p == 1 {
                    if enable {
                        self.mode.insert(MODE_CURSOR_KEYS_APP);
                    } else {
                        self.mode.remove(MODE_CURSOR_KEYS_APP);
                    }
                } else if p == 25 {
                    self.cursor.visible = enable;
                } else if p == 7 {
                    if enable {
                        self.mode.insert(MODE_AUTO_WRAP);
                    } else {
                        self.mode.remove(MODE_AUTO_WRAP);
                    }
                } else if p == 1049 || p == 47 || p == 1047 {
                    if enable {
                        self.enter_alt_screen();
                    } else {
                        self.exit_alt_screen();
                    }
                } else if p == 2004 {
                    if enable {
                        self.mode.insert(MODE_BRACKETED_PASTE);
                    } else {
                        self.mode.remove(MODE_BRACKETED_PASTE);
                    }
                } else if p == 1000 || p == 1002 || p == 1003 || p == 1006 || p == 1015 {
                    if enable {
                        self.mode.insert(MODE_MOUSE_TRACKING);
                    } else {
                        self.mode.remove(MODE_MOUSE_TRACKING);
                    }
                }
            } else {
                if p == 4 {
                    if enable {
                        self.mode.insert(MODE_INSERT);
                    } else {
                        self.mode.remove(MODE_INSERT);
                    }
                }
            }
            i = i + 1;
        }
    }

    /// Applies one complete CSI sequence.
    pub fn csi_dispatch(&mut self, params: &[u16], private: bool, final_byte: u8)
        requires
            old(self).wf(),
        ensures
            final(self).wf(),
            final(self)@ == spec_apply_csi(old(self)@, params@, private, final_byte),
    {
        let n16 = param_get(params, 0, 1);
        let n = n16 as i32;
        if final_byte == 0x41 {
            self.move_cursor(0, -n);
        } else if final_byte == 0x42 {
            self.move_cursor(0, n);
        } else if final_byte == 0x43 {
            self.move_cursor(n, 0);
        } else if final_byte == 0x44 {
            self.move_cursor(-n, 0);
        } else if final_byte == 0x45 {
            self.move_cursor(0, n);
            self.carriage_return();
        } else if final_byte == 0x46 {
            self.move_cursor(0, -n);
            self.carriage_return();
        } else if final_byte == 0x47 {
            let col = if n16 >= 1 {
                (n16 - 1) as usize
            } else {
                0
            };
            let row = self.cursor.row;
            proof {
                assert(old(self)@.op_move_cursor_to(n as int - 1, old(self)@.cursor.row as int)
                    == old(self)@.op_move_cursor_to(col as int, row as int));
            }
            self.move_cursor_to(col, row);
        } else if final_byte == 0x48 || final_byte == 0x66 {
            let p0 = param_get(params, 0, 1);
            let p1 = param_get(params, 1, 1);
            let row = if p0 >= 1 {
                (p0 - 1) as usize
            } else {
                0
            };
            let col = if p1 >= 1 {
                (p1 - 1) as usize
            } else {
                0
            };
            self.move_cursor_to(col, row);
        } else if final_byte == 0x4a {
            let m = param_get(params, 0, 0);
            if m == 0 {
                self.erase_display_to_end();
            } else if m == 1 {
                self.erase_display_to_start();
            } else if m == 2 || m == 3 {
                self.erase_display();
            }
        } else if final_byte == 0x4b {
            let m = param_get(params, 0, 0);
            if m == 0 {
                self.erase_line_to_end();
            } else if m == 1 {
                self.erase_line_to_start();
            } else if m == 2 {
                self.erase_line();
            }
        } else if final_byte == 0x53 {
            self.scroll_up(n16 as usize);
        } else if final_byte == 0x54 {
            self.scroll_down(n16 as usize);
        } else if final_byte == 0x6d {
            self.handle_sgr(params);
        } else if final_byte == 0x72 {
            let rows = self.active_grid().rows;
            let p0 = param_get(params, 0, 1);
            let top = if p0 >= 1 {
                (p0 - 1) as usize
            } else {
                0
            };
            let bp = param_get(params, 1, #[verifier::truncate] (rows as u16));
            let b0 = if bp >= 1 {
                (bp - 1) as usize
            } else {
                0
            };
            let bottom = if b0 > rows - 1 {
                rows - 1
            } else {
                b0
            };
            if top <= bottom {
                self.scroll_top = top;
                self.scroll_bottom = bottom;
            }
            self.move_cursor_to(0, 0);
        } else if final_byte == 0x73 {
            self.save_cursor();
        } else if final_byte == 0x75 {
            self.restore_cursor();
        } else if final_byte == 0x68 {
            self.handle_mode(true, params, private);
        } else if final_byte == 0x6c {
            self.handle_mode(false, params, private);
        } else if final_byte == 0x71 {
            let m = param_get(params, 0, 0);
            let shape = if m == 3 || m == 4 {
                CursorShape::Underline
            } else if m == 5 || m == 6 {
                CursorShape::Beam
            } else {
                CursorShape::Block
            };
            self.cursor.shape = shape;
        } else if final_byte == 0x6e {
            let m = param_get(params, 0, 0);
            if m == 5 {
                let ok: [u8; 4] = [0x1b, 0x5b, 0x30, 0x6e];
                proof {
                    assert(ok@ =~= seq![0x1bu8, 0x5bu8, 0x30u8, 0x6eu8]);
                }
                self.queue_response(ok.as_slice());
            } else if m == 6 {
                self.report_cursor_position();
            }
        }
        proof {
            assert(self@ =~= spec_apply_csi(old(self)@, params@, private, final_byte));
        }
    }

    /// Applies one parser event to the terminal.
    pub fn apply_event(&mut self, e: &Event)
        requires
            old(self).wf(),
        ensures
            final(self).wf(),
            final(self)@ == spec_apply_event(old(self)@, e@),
    {
        match e {
            Event::Print(c) => {
                if !(*c == '\u{2020}' || *c == '\u{2021}') {
                    self.input_char(*c);
                }
            },
            Event::Execute(b) => {
                if *b == 0x08 {
                    self.backspace();
                } else if *b == 0x09 {
                    self.tab();
                } else if *b == 0x0a || *b == 0x0b || *b == 0x0c {
                    self.linefeed();
                } else if *b == 0x0d {
                    self.carriage_return();
                }
            },
            Event::Csi { params, private, final_byte } => {
                self.csi_dispatch(params.as_slice(), *private, *final_byte);
            },
            Event::Esc(b) => {
                if *b == 0x37 {
                    self.save_cursor();
                } else if *b == 0x38 {
                    self.restore_cursor();
                } else if *b == 0x44 {
                    self.linefeed();
                } else if *b == 0x45 {
                    self.linefeed();
                    self.carriage_return();
                } else if *b == 0x4d {
                    self.scroll_down(1);
                } else if *b == 0x63 {
                    let cols = self.grid.cols;
                    let rows = self.grid.rows;
                    *self = Terminal::new(cols, rows);
                }
            },
            Event::Osc { code, payload, has_payload } => {
                if (*code == 0 || *code == 2) && *has_payload {
                    match bytes_to_string(payload) {
                        Some(s) => {
                            self.title = s;
                        },
                        None => {},
                    }
                } else if *code == 7 && *has_payload {
                    match parse_osc7_path(payload.as_slice()) {
                        Some(p) => {
                            self.cwd = p;
                        },
                        None => {},
                    }
                }
            },
        }
        proof {
            assert(self@ =~= spec_apply_event(old(self)@, e@));
        }
    }
}

impl AnsiParser {
    /// Feeds a whole buffer to the machine, applying every completed event
    /// to the terminal in order.
    #[verifier::rlimit(100)]
    pub fn process(&mut self, terminal: &mut Terminal, data: &[u8])
        requires
            old(terminal).wf(),
        ensures
            final(terminal).wf(),
            (final(self)@, final(terminal)@) == spec_run(old(self)@, old(terminal)@, data@),
    {
        let n = data.len();
        let mut i: usize = 0;
        proof {
            assert(data@.subrange(0, 0) =~= Seq::<u8>::empty());
        }
        while i < n
            invariant
                terminal.wf(),
                n == data@.len(),
                i <= n,
                (self@, terminal@) == spec_run(
                    old(self)@,
                    old(terminal)@,
                    data@.subrange(0, i as int),
                ),
            decreases n - i,
        {
            let ghost p1 = self@;
            let ghost t1 = terminal@;
            let b = data[i];
            let ev = self.advance_byte(b);
            match ev {
                Some(e) => terminal.apply_event(&e),
                None => {},
            }
            i = i + 1;
            proof {
                let prefix = data@.subrange(0, i - 1);
                let s1 = seq![b];
                lemma_process_chunked(old(self)@, old(terminal)@, prefix, s1);
                assert(prefix + s1 =~= data@.subrange(0, i as int));
                assert(s1[0] == b);
                assert(s1.drop_first() =~= Seq::<u8>::empty());
                let p2 = spec_step(p1, b).0;
                let ev2 = spec_step(p1, b).1;
                let t2 = match ev2 {
                    Some(e) => spec_apply_event(t1, e),
                    None => t1,
                };
                assert(spec_run(p2, t2, Seq::<u8>::empty()) == (p2, t2));
                assert(spec_run(p1, t1, s1) == (p2, t2));
                assert(self@ == p2);
                assert(terminal@ == t2);
            }
        }
        proof {
            assert(data@.subrange(0, n as int) =~= data@);
        }
    }
}

} // verus!
