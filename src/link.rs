use vstd::prelude::*;

verus! {

/// What arrived on a connection, with a data frame already decoded.
#[derive(Debug, PartialEq, Eq)]
pub enum Frame<M> {
    /// A data frame that decoded to a message.
    Message(M),
    /// A data frame that did not decode.
    Undecodable,
    /// A transport-level ping.
    Ping,
    /// Any other frame, such as text or a close frame.
    Other,
    /// The remote end closed the stream.
    Closed,
    /// Reading failed.
    Failed,
}

/// What a connection's loop does next.
#[derive(Debug, PartialEq, Eq)]
pub enum LinkAction<M> {
    /// Hand the message to the consumer and go on.
    Deliver(M),
    /// Go on.
    Continue,
    /// Leave the loop.
    Close,
}

/// The decisions of one connection's loop: which frames reach the consumer,
/// when the loop ends, and that the consumer hears of the end exactly once.
pub struct Link {
    pub open: bool,
}

/// The action for `frame` on a link that is open exactly when `open`.
pub open spec fn frame_action<M>(open: bool, frame: Frame<M>) -> LinkAction<M> {
    if !open {
        LinkAction::Close
    } else {
        match frame {
            Frame::Message(m) => LinkAction::Deliver(m),
            Frame::Ping => LinkAction::Continue,
            _ => LinkAction::Close,
        }
    }
}

impl Link {
    /// An open link.
    pub fn new() -> (l: Link)
        ensures
            l.open,
    {
        Link { open: true }
    }

    /// A decoded message is delivered and a ping is passed over; anything
    /// else ends the loop: an undecodable or unexpected frame, the end of the
    /// stream, or a read failure. A closed link only closes.
    pub fn on_frame<M>(&self, frame: Frame<M>) -> (a: LinkAction<M>)
        ensures
            a == frame_action(self.open, frame),
    {
        if !self.open {
            return LinkAction::Close;
        }
        match frame {
            Frame::Message(m) => LinkAction::Deliver(m),
            Frame::Ping => LinkAction::Continue,
            _ => LinkAction::Close,
        }
    }

    /// After a write: a failed write, like a closed link, ends the loop.
    pub fn on_sent(&self, ok: bool) -> (close: bool)
        ensures
            close == (!ok || !self.open),
    {
        !ok || !self.open
    }

    /// Closes the link; `true` exactly when it was open, that is, the first
    /// time, when the consumer is to hear of the disconnect.
    pub fn close(&mut self) -> (notify: bool)
        ensures
            notify == old(self).open,
            !final(self).open,
    {
        let notify = self.open;
        self.open = false;
        notify
    }
}

} // verus!
