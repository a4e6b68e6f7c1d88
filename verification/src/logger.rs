//! The coloured prefix that every log line of a component starts with.
use vstd::prelude::*;
use crate::text::{decimal, decimal_string, push_char, push_str};

verus! {

/// `ESC[0m`: back to the terminal's default colours.
pub open spec fn reset_seq() -> Seq<char> {
    seq!['\x1b', '[', '0', 'm']
}

/// `ESC[38;2;r;g;bm` followed by `text`: `text` in the 24-bit colour `(r, g, b)`.
pub open spec fn rgb_seq(r: u8, g: u8, b: u8, text: Seq<char>) -> Seq<char> {
    seq!['\x1b', '[', '3', '8', ';', '2', ';'] + decimal(r as nat) + seq![';'] + decimal(g as nat)
        + seq![';'] + decimal(b as nat) + seq!['m'] + text
}

/// `[arRPC > component]`, the project name in Discord's blurple and the
/// component in green.
pub open spec fn prefix_seq(component: Seq<char>) -> Seq<char> {
    seq!['['] + rgb_seq(88, 101, 242, Seq::empty()) + seq!['a', 'r', 'R', 'P', 'C'] + reset_seq()
        + seq![' ', '>', ' '] + rgb_seq(87, 242, 135, Seq::empty()) + component + reset_seq()
        + seq![']']
}

/// Writes a component's messages behind its coloured prefix.
#[derive(Clone)]
pub struct Logger {
    prefix: String,
}

impl Logger {
    /// The prefix that this logger puts before each message.
    pub closed spec fn prefix_view(&self) -> Seq<char> {
        self.prefix@
    }

    /// A logger for `component`.
    pub fn new(component: &str) -> (l: Self)
        ensures
            l.prefix_view() == prefix_seq(component@),
    {
        let mut prefix = String::new();
        push_char(&mut prefix, '[');
        let blurple = Self::rgb(88, 101, 242, "");
        push_str(&mut prefix, blurple.as_str());
        push_str(&mut prefix, "arRPC");
        push_str(&mut prefix, Self::reset_color());
        push_str(&mut prefix, " > ");
        let green = Self::rgb(87, 242, 135, "");
        push_str(&mut prefix, green.as_str());
        push_str(&mut prefix, component);
        push_str(&mut prefix, Self::reset_color());
        push_char(&mut prefix, ']');
        proof {
            reveal_strlit("");
            reveal_strlit("arRPC");
            reveal_strlit(" > ");
            assert(prefix@ =~= prefix_seq(component@));
        }
        Logger { prefix }
    }

    /// The line that `info` prints: the prefix, a space and the message.
    pub fn info_line(&self, message: &str) -> (line: String)
        ensures
            line@ == self.prefix_view() + seq![' '] + message@,
    {
        let mut line = self.prefix.clone();
        push_char(&mut line, ' ');
        push_str(&mut line, message);
        line
    }

    /// The line that `error` prints: the prefix, ` ERROR: ` and the message.
    pub fn error_line(&self, message: &str) -> (line: String)
        ensures
            line@ == self.prefix_view() + seq![' ', 'E', 'R', 'R', 'O', 'R', ':', ' '] + message@,
    {
        let mut line = self.prefix.clone();
        push_str(&mut line, " ERROR: ");
        push_str(&mut line, message);
        proof {
            reveal_strlit(" ERROR: ");
            assert(line@ =~= self.prefix_view() + seq![' ', 'E', 'R', 'R', 'O', 'R', ':', ' ']
                + message@);
        }
        line
    }

    /// `text` behind the escape sequence that selects colour `(r, g, b)`.
    pub fn rgb(r: u8, g: u8, b: u8, text: &str) -> (s: String)
        ensures
            s@ == rgb_seq(r, g, b, text@),
    {
        let mut s = String::new();
        push_str(&mut s, "\x1b[38;2;");
        let rs = decimal_string(r as u128);
        push_str(&mut s, rs.as_str());
        push_char(&mut s, ';');
        let gs = decimal_string(g as u128);
        push_str(&mut s, gs.as_str());
        push_char(&mut s, ';');
        let bs = decimal_string(b as u128);
        push_str(&mut s, bs.as_str());
        push_char(&mut s, 'm');
        push_str(&mut s, text);
        proof {
            reveal_strlit("\x1b[38;2;");
            assert(s@ =~= rgb_seq(r, g, b, text@));
        }
        s
    }

    /// The escape sequence that restores the default colours.
    pub fn reset_color() -> (s: &'static str)
        ensures
            s@ == reset_seq(),
    {
        let s = "\x1b[0m";
        proof {
            reveal_strlit("\x1b[0m");
            assert(s@ =~= reset_seq());
        }
        s
    }
}

} // verus!
