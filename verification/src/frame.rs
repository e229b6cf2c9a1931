//! The frames of the Telnet wire protocol and their encoding.

use vstd::prelude::*;

verus! {

/// "Interpret As Command": the byte that opens every control sequence.
pub const IAC: u8 = 0xFF;

/// Subnegotiation end.
pub const SE: u8 = 0xF0;

/// Subnegotiation begin.
pub const SB: u8 = 0xFA;

/// Offer to enable an option.
pub const WILL: u8 = 0xFB;

/// Refusal to enable, or announcement of disabling, an option.
pub const WONT: u8 = 0xFC;

/// Request that the peer enable an option.
pub const DO: u8 = 0xFD;

/// Request that the peer disable an option.
pub const DONT: u8 = 0xFE;

/// Whether `byte` is one of the four negotiation verbs.
pub open spec fn is_verb(byte: u8) -> bool {
    byte == WILL || byte == WONT || byte == DO || byte == DONT
}

/// Whether `byte` is one of the four negotiation verbs.
pub fn is_verb_byte(byte: u8) -> (r: bool)
    ensures
        r == is_verb(byte),
{
    byte == WILL || byte == WONT || byte == DO || byte == DONT
}

/// Whether `byte`, following an `IAC`, has no meaning to the decoder: it is
/// neither an escaped `IAC`, nor `SB`, nor a negotiation verb.
pub open spec fn is_unknown_command(byte: u8) -> bool {
    byte != IAC && byte != SB && !is_verb(byte)
}

/// A negotiation command: a verb together with the option it speaks of.
#[derive(Clone, Copy, Debug, PartialEq, Eq, Structural)]
pub enum TelnetCommand {
    /// The sender offers to enable the option, or confirms that it has.
    Will(u8),
    /// The sender refuses to enable the option, or confirms that it is off.
    Wont(u8),
    /// The sender asks the receiver to enable the option, or agrees to it.
    Do(u8),
    /// The sender asks the receiver to disable the option, or refuses it.
    Dont(u8),
}

impl TelnetCommand {
    /// The verb byte of this command on the wire.
    pub open spec fn spec_verb(self) -> u8 {
        match self {
            TelnetCommand::Will(_) => WILL,
            TelnetCommand::Wont(_) => WONT,
            TelnetCommand::Do(_) => DO,
            TelnetCommand::Dont(_) => DONT,
        }
    }

    /// The option this command speaks of.
    pub open spec fn spec_option(self) -> u8 {
        match self {
            TelnetCommand::Will(o) => o,
            TelnetCommand::Wont(o) => o,
            TelnetCommand::Do(o) => o,
            TelnetCommand::Dont(o) => o,
        }
    }

    /// The command that the bytes `verb option` denote after an `IAC`.
    pub open spec fn spec_from_bytes(verb: u8, option: u8) -> TelnetCommand
        recommends
            is_verb(verb),
    {
        if verb == WILL {
            TelnetCommand::Will(option)
        } else if verb == WONT {
            TelnetCommand::Wont(option)
        } else if verb == DO {
            TelnetCommand::Do(option)
        } else {
            TelnetCommand::Dont(option)
        }
    }

    /// The three bytes of this command on the wire.
    pub open spec fn spec_encode(self) -> Seq<u8> {
        seq![IAC, self.spec_verb(), self.spec_option()]
    }

    /// The verb byte of this command on the wire.
    pub fn verb(&self) -> (v: u8)
        ensures
            v == self.spec_verb(),
            is_verb(v),
    {
        match self {
            TelnetCommand::Will(_) => WILL,
            TelnetCommand::Wont(_) => WONT,
            TelnetCommand::Do(_) => DO,
            TelnetCommand::Dont(_) => DONT,
        }
    }

    /// The option this command speaks of.
    pub fn option(&self) -> (o: u8)
        ensures
            o == self.spec_option(),
    {
        match self {
            TelnetCommand::Will(o) => *o,
            TelnetCommand::Wont(o) => *o,
            TelnetCommand::Do(o) => *o,
            TelnetCommand::Dont(o) => *o,
        }
    }

    /// The command that a verb byte and an option byte denote.
    pub(crate) fn with_verb(verb: u8, option: u8) -> (command: TelnetCommand)
        requires
            is_verb(verb),
        ensures
            command == TelnetCommand::spec_from_bytes(verb, option),
    {
        if verb == WILL {
            TelnetCommand::Will(option)
        } else if verb == WONT {
            TelnetCommand::Wont(option)
        } else if verb == DO {
            TelnetCommand::Do(option)
        } else {
            TelnetCommand::Dont(option)
        }
    }

    /// Reads a command from the two bytes that follow an `IAC`; `None` when
    /// `verb` is not a negotiation verb.
    pub fn from_bytes(verb: u8, option: u8) -> (r: Option<TelnetCommand>)
        ensures
            is_verb(verb) ==> r == Some(TelnetCommand::spec_from_bytes(verb, option)),
            !is_verb(verb) ==> r is None,
    {
        if is_verb_byte(verb) {
            Some(TelnetCommand::with_verb(verb, option))
        } else {
            None
        }
    }

    /// The three bytes of this command on the wire: `IAC`, the verb, the option.
    pub fn encode(&self) -> (bytes: Vec<u8>)
        ensures
            bytes@ == self.spec_encode(),
    {
        let mut bytes: Vec<u8> = Vec::new();
        bytes.push(IAC);
        bytes.push(self.verb());
        bytes.push(self.option());
        assert(bytes@ =~= self.spec_encode());
        bytes
    }
}

/// One unit of the decoded stream.
#[derive(Debug, PartialEq, Eq)]
pub enum TelnetFrame {
    /// A negotiation command, `IAC verb option`.
    Command(TelnetCommand),
    /// Literal bytes of user data, already unescaped.
    Data(Vec<u8>),
    /// A subnegotiation `IAC SB option payload IAC SE`, the payload unescaped.
    Subnegotiation(u8, Vec<u8>),
    /// `IAC` followed by a byte the decoder attaches no meaning to.
    UnknownCommand(u8),
}

/// The mathematical value of a [`TelnetFrame`].
pub enum FrameView {
    /// A negotiation command.
    Command(TelnetCommand),
    /// Unescaped data bytes.
    Data(Seq<u8>),
    /// The option and the unescaped payload of a subnegotiation.
    Subnegotiation(u8, Seq<u8>),
    /// The byte that followed `IAC`.
    UnknownCommand(u8),
}

impl View for TelnetFrame {
    type V = FrameView;

    open spec fn view(&self) -> FrameView {
        match self {
            TelnetFrame::Command(c) => FrameView::Command(*c),
            TelnetFrame::Data(d) => FrameView::Data(d@),
            TelnetFrame::Subnegotiation(o, p) => FrameView::Subnegotiation(*o, p@),
            TelnetFrame::UnknownCommand(b) => FrameView::UnknownCommand(*b),
        }
    }
}

/// `data` with every `IAC` byte doubled, as user data and subnegotiation
/// payloads travel on the wire.
pub open spec fn escape(data: Seq<u8>) -> Seq<u8>
    decreases data.len(),
{
    if data.len() == 0 {
        Seq::empty()
    } else if data[0] == IAC {
        seq![IAC, IAC] + escape(data.skip(1))
    } else {
        seq![data[0]] + escape(data.skip(1))
    }
}

impl FrameView {
    /// Whether the decoder can produce this frame: data is never empty, and an
    /// unknown command never carries a byte that the decoder understands.
    pub open spec fn well_formed(self) -> bool {
        match self {
            FrameView::Command(_) => true,
            FrameView::Data(d) => d.len() > 0,
            FrameView::Subnegotiation(_, _) => true,
            FrameView::UnknownCommand(b) => is_unknown_command(b),
        }
    }

    /// The bytes of this frame on the wire.
    pub open spec fn wire(self) -> Seq<u8> {
        match self {
            FrameView::Command(c) => c.spec_encode(),
            FrameView::Data(d) => escape(d),
            FrameView::Subnegotiation(o, p) => seq![IAC, SB, o] + escape(p) + seq![IAC, SE],
            FrameView::UnknownCommand(b) => seq![IAC, b],
        }
    }
}

/// Escaping distributes over concatenation.
pub proof fn lemma_escape_concat(a: Seq<u8>, b: Seq<u8>)
    ensures
        escape(a + b) == escape(a) + escape(b),
    decreases a.len(),
{
    if a.len() == 0 {
        assert(a + b =~= b);
        assert(escape(a) + escape(b) =~= escape(b));
    } else {
        assert((a + b).skip(1) =~= a.skip(1) + b);
        lemma_escape_concat(a.skip(1), b);
        assert(escape(a + b) =~= escape(a) + escape(b));
    }
}

/// Escaping one byte: an `IAC` is doubled, any other byte stands as it is.
pub proof fn lemma_escape_single(b: u8)
    ensures
        escape(seq![b]) == if b == IAC {
            seq![IAC, IAC]
        } else {
            seq![b]
        },
{
    reveal_with_fuel(escape, 2);
    assert(seq![b].skip(1) =~= Seq::<u8>::empty());
    assert(escape(seq![b]) =~= if b == IAC {
        seq![IAC, IAC]
    } else {
        seq![b]
    });
}

/// Appends `data` to `out`, doubling every `IAC` byte.
pub fn escape_into(out: &mut Vec<u8>, data: &[u8])
    ensures
        final(out)@ == old(out)@ + escape(data@),
{
    let ghost base = out@;
    let mut i: usize = 0;
    while i < data.len()
        invariant
            i <= data.len(),
            out@ == base + escape(data@.take(i as int)),
        decreases data.len() - i,
    {
        let b = data[i];
        proof {
            let head = data@.take(i as int);
            assert(data@.take(i + 1) =~= head + seq![b]);
            lemma_escape_concat(head, seq![b]);
            lemma_escape_single(b);
        }
        if b == IAC {
            out.push(IAC);
            out.push(IAC);
        } else {
            out.push(b);
        }
        i += 1;
        assert(out@ =~= base + escape(data@.take(i as int)));
    }
    assert(data@.take(i as int) =~= data@);
}

impl Clone for TelnetFrame {
    fn clone(&self) -> (copy: Self)
        ensures
            copy@ == self@,
    {
        match self {
            TelnetFrame::Command(c) => TelnetFrame::Command(*c),
            TelnetFrame::Data(d) => {
                let e = d.clone();
                assert(e@ =~= d@);
                TelnetFrame::Data(e)
            },
            TelnetFrame::Subnegotiation(o, p) => {
                let q = p.clone();
                assert(q@ =~= p@);
                TelnetFrame::Subnegotiation(*o, q)
            },
            TelnetFrame::UnknownCommand(b) => TelnetFrame::UnknownCommand(*b),
        }
    }
}

impl TelnetFrame {
    /// The bytes of this frame on the wire.
    pub fn encode(&self) -> (bytes: Vec<u8>)
        ensures
            bytes@ == self@.wire(),
    {
        match self {
            TelnetFrame::Command(c) => c.encode(),
            TelnetFrame::Data(d) => {
                let mut bytes: Vec<u8> = Vec::new();
                escape_into(&mut bytes, d.as_slice());
                assert(bytes@ =~= escape(d@));
                bytes
            },
            TelnetFrame::Subnegotiation(o, p) => {
                let mut bytes: Vec<u8> = Vec::new();
                bytes.push(IAC);
                bytes.push(SB);
                bytes.push(*o);
                assert(bytes@ =~= seq![IAC, SB, *o]);
                escape_into(&mut bytes, p.as_slice());
                bytes.push(IAC);
                bytes.push(SE);
                assert(bytes@ =~= seq![IAC, SB, *o] + escape(p@) + seq![IAC, SE]);
                bytes
            },
            TelnetFrame::UnknownCommand(b) => {
                let mut bytes: Vec<u8> = Vec::new();
                bytes.push(IAC);
                bytes.push(*b);
                assert(bytes@ =~= seq![IAC, *b]);
                bytes
            },
        }
    }
}

} // verus!
