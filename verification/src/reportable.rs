//! Unwrapping with an announcement: a fallible or optional value either gives
//! up what it carries, or has its failure handed to the dispatcher's print
//! hook before the caller goes on to signal it.

use crate::dispatcher::DebugLed;
use crate::signal::Event;
use core::fmt::Debug;
use vstd::prelude::*;

verus! {

/// A value that either carries a result or stands for a failure that can be
/// announced through a dispatcher.
pub trait DebugReportable<T>: Sized {
    /// The value carried on success; `None` on failure or absence.
    spec fn carried(self) -> Option<T>;

    /// What announcing this failure hands to the print hook, in order.
    /// `context` is the caller's message, if the caller gave one.
    spec fn announcement(self, context: Option<Seq<char>>) -> Seq<Event>;

    /// Hands the carried value over, leaving the dispatcher untouched; or, on
    /// failure, announces the failure through the print hook, if there is
    /// one, and hands `self` back for the caller to signal and re-raise.
    fn try_unwrap_del(self, dispatcher: &mut DebugLed) -> (result: Result<T, Self>)
        ensures
            self.carried() is Some ==> result == Ok::<T, Self>(self.carried()->0),
            self.carried() is Some ==> *final(dispatcher) == *old(dispatcher),
            self.carried() is None ==> result == Err::<T, Self>(self) && DebugLed::recorded(
                *old(dispatcher),
                *final(dispatcher),
                old(dispatcher).printing(self.announcement(None)),
            ),
    ;

    /// As `try_unwrap_del`, with the caller's message `msg` announced first.
    fn try_expect_del(self, msg: &str, dispatcher: &mut DebugLed) -> (result: Result<T, Self>)
        ensures
            self.carried() is Some ==> result == Ok::<T, Self>(self.carried()->0),
            self.carried() is Some ==> *final(dispatcher) == *old(dispatcher),
            self.carried() is None ==> result == Err::<T, Self>(self) && DebugLed::recorded(
                *old(dispatcher),
                *final(dispatcher),
                old(dispatcher).printing(self.announcement(Some(msg@))),
            ),
    ;
}

impl<Res, Error: Debug> DebugReportable<Res> for Result<Res, Error> {
    open spec fn carried(self) -> Option<Res> {
        match self {
            Ok(value) => Some(value),
            Err(_) => None,
        }
    }

    /// The caller's message, if any, and then the error value.
    open spec fn announcement(self, context: Option<Seq<char>>) -> Seq<Event> {
        match context {
            Some(message) => seq![Event::PrintedMessage(message), Event::PrintedFailure],
            None => seq![Event::PrintedFailure],
        }
    }

    fn try_unwrap_del(self, dispatcher: &mut DebugLed) -> (result: Result<Res, Self>) {
        match self {
            Ok(val) => Ok(val),
            Err(err) => {
                dispatcher.print_failure(&err);
                Err(Err(err))
            },
        }
    }

    fn try_expect_del(self, msg: &str, dispatcher: &mut DebugLed) -> (result: Result<Res, Self>) {
        match self {
            Ok(val) => Ok(val),
            Err(err) => {
                let ghost before = *dispatcher;
                dispatcher.print_message(msg);
                dispatcher.print_failure(&err);
                proof {
                    assert(dispatcher.history() =~= before.history() + before.printing(
                        seq![Event::PrintedMessage(msg@), Event::PrintedFailure],
                    ));
                }
                Err(Err(err))
            },
        }
    }
}

impl<Res> DebugReportable<Res> for Option<Res> {
    open spec fn carried(self) -> Option<Res> {
        self
    }

    /// The caller's message; without one, the message of a plain `unwrap`.
    /// An absent value has nothing of its own to print.
    open spec fn announcement(self, context: Option<Seq<char>>) -> Seq<Event> {
        match context {
            Some(message) => seq![Event::PrintedMessage(message)],
            None => seq![Event::PrintedMessage("called `Option::unwrap()` on a `None` value"@)],
        }
    }

    fn try_unwrap_del(self, dispatcher: &mut DebugLed) -> (result: Result<Res, Self>) {
        match self {
            Some(val) => Ok(val),
            None => {
                dispatcher.print_message("called `Option::unwrap()` on a `None` value");
                Err(None)
            },
        }
    }

    fn try_expect_del(self, msg: &str, dispatcher: &mut DebugLed) -> (result: Result<Res, Self>) {
        match self {
            Some(val) => Ok(val),
            None => {
                dispatcher.print_message(msg);
                Err(None)
            },
        }
    }
}

} // verus!
