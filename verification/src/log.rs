//! The log of a painting session: the notices of the program, which fade
//! after a while, and the last lines of the chat.

use std::collections::VecDeque;
use vstd::prelude::*;
use vstd::string::StringExecFns;
use vstd::utf8::encode_utf8;

verus! {

/// The largest number of bytes of a chat line that is kept whole. A longer
/// line is cut to [`MAX_CHAT_CHARS`] characters.
pub const MAX_CHAT_LEN: usize = 100;

/// The number of characters that is kept of a chat line that is too long.
pub const MAX_CHAT_CHARS: usize = 100;

/// The number of chat lines that are kept.
pub const MAX_CHAT_LINES: usize = 15;

/// How long a notice is kept, in milliseconds.
pub const NOTICE_LIFETIME: u64 = 15_000;

/// What precedes a notice of the program in the chat.
pub open spec fn system_tag() -> Seq<char> {
    "<System> "@
}

/// A chat line as it is kept: whole if it has at most [`MAX_CHAT_LEN`]
/// bytes, and else its first [`MAX_CHAT_CHARS`] characters, or all of them
/// if it has fewer.
pub open spec fn cut(line: Seq<char>) -> Seq<char> {
    if encode_utf8(line).len() > MAX_CHAT_LEN {
        if line.len() > MAX_CHAT_CHARS {
            line.take(MAX_CHAT_CHARS as int)
        } else {
            line
        }
    } else {
        line
    }
}

/// The chat after the line `line`: the line is cut and goes to the end, and
/// the oldest line goes once there are more than [`MAX_CHAT_LINES`].
pub open spec fn chat_after(chat: Seq<Seq<char>>, line: Seq<char>) -> Seq<Seq<char>> {
    let longer = chat.push(cut(line));
    if longer.len() > MAX_CHAT_LINES {
        longer.skip(1)
    } else {
        longer
    }
}

/// The test that a notice passes at the time `now` if it is younger than
/// [`NOTICE_LIFETIME`]. A notice from the future counts as new.
pub open spec fn is_young(now: u64) -> spec_fn((Seq<char>, u64)) -> bool {
    |notice: (Seq<char>, u64)| notice.1 >= now || now - notice.1 < NOTICE_LIFETIME
}

/// Notices with the time at which each was made, as mathematical values.
pub open spec fn notices_view(notices: Seq<(String, u64)>) -> Seq<(Seq<char>, u64)> {
    notices.map_values(|notice: (String, u64)| (notice.0@, notice.1))
}

/// Lines as mathematical values.
pub open spec fn lines_view(lines: Seq<String>) -> Seq<Seq<char>> {
    lines.map_values(|line: String| line@)
}

/// The log of a session.
pub struct Log {
    general_log: Vec<(String, u64)>,
    chat_log: VecDeque<String>,
}

/// A [`Log`] as a mathematical value.
#[verifier::ext_equal]
pub struct LogView {
    /// The notices, oldest first, each with the time at which it was made.
    pub general: Seq<(Seq<char>, u64)>,
    /// The lines of the chat, oldest first.
    pub chat: Seq<Seq<char>>,
}

impl View for Log {
    type V = LogView;

    closed spec fn view(&self) -> LogView {
        LogView { general: notices_view(self.general_log@), chat: lines_view(self.chat_log@) }
    }
}

impl Log {
    /// An empty log.
    pub fn new() -> (log: Log)
        ensures
            log@ == (LogView { general: Seq::empty(), chat: Seq::empty() }),
    {
        let log = Log { general_log: Vec::new(), chat_log: VecDeque::new() };
        assert(log@ =~= (LogView { general: Seq::empty(), chat: Seq::empty() }));
        log
    }

    /// Adds a line to the chat.
    pub fn push_chat(&mut self, msg: String)
        ensures
            final(self)@ == (LogView { chat: chat_after(old(self)@.chat, msg@), ..old(self)@ }),
    {
        let text = msg.as_str();
        let line = if text.as_bytes().len() > MAX_CHAT_LEN {
            let chars = text.unicode_len();
            if chars > MAX_CHAT_CHARS {
                String::from_str(text.substring_char(0, MAX_CHAT_CHARS))
            } else {
                msg
            }
        } else {
            msg
        };
        assert(line@ == cut(msg@));
        let ghost before = self.chat_log@;
        self.chat_log.push_back(line);
        assert(lines_view(self.chat_log@) =~= lines_view(before).push(cut(msg@)));
        if self.chat_log.len() > MAX_CHAT_LINES {
            let ghost longer = self.chat_log@;
            self.chat_log.pop_front();
            assert(lines_view(self.chat_log@) =~= lines_view(longer).skip(1));
        }
    }

    /// Adds a notice that was made at the given time.
    pub fn push_general_log(&mut self, el: (String, u64))
        ensures
            final(self)@ == (LogView {
                general: old(self)@.general.push((el.0@, el.1)),
                ..old(self)@
            }),
    {
        let ghost before = self.general_log@;
        self.general_log.push(el);
        assert(notices_view(self.general_log@) =~= notices_view(before).push((el.0@, el.1)));
    }

    /// Adds a notice that was made at the given time, and tells of it in the
    /// chat as well.
    pub fn push(&mut self, el: (String, u64))
        ensures
            final(self)@ == (LogView {
                general: old(self)@.general.push((el.0@, el.1)),
                chat: chat_after(old(self)@.chat, system_tag() + el.0@),
            }),
    {
        let line = String::from_str("<System> ").concat(el.0.as_str());
        self.push_general_log(el);
        self.push_chat(line);
    }

    /// The notices, oldest first.
    pub fn raw_log_vec(&self) -> (notices: Vec<(String, u64)>)
        ensures
            notices_view(notices@) == self@.general,
    {
        let mut notices: Vec<(String, u64)> = Vec::new();
        let mut i: usize = 0;
        while i < self.general_log.len()
            invariant
                i <= self.general_log@.len(),
                notices_view(notices@) == notices_view(self.general_log@).take(i as int),
            decreases self.general_log@.len() - i,
        {
            let ghost before = notices_view(notices@);
            notices.push((self.general_log[i].0.clone(), self.general_log[i].1));
            assert(notices_view(notices@) =~= before.push(
                notices_view(self.general_log@)[i as int],
            ));
            assert(notices_view(self.general_log@).take(i + 1) =~= notices_view(
                self.general_log@,
            ).take(i as int).push(notices_view(self.general_log@)[i as int]));
            i += 1;
        }
        assert(notices_view(self.general_log@).take(i as int) =~= notices_view(
            self.general_log@,
        ));
        notices
    }

    /// Drops the notices that are older than [`NOTICE_LIFETIME`] at the time
    /// `now`. The others keep their order.
    pub fn process_general(&mut self, now: u64)
        ensures
            final(self)@ == (LogView {
                general: old(self)@.general.filter(is_young(now)),
                ..old(self)@
            }),
    {
        let ghost all = notices_view(self.general_log@);
        let ghost young = is_young(now);
        let mut notices: Vec<(String, u64)> = Vec::new();
        std::mem::swap(&mut self.general_log, &mut notices);
        let ghost items = notices@;
        assert(notices_view(self.general_log@) =~= all.take(0).filter(young));
        for notice in it: notices
            invariant
                it.seq() == items,
                all == notices_view(items),
                young == is_young(now),
                self.chat_log@ == old(self).chat_log@,
                notices_view(self.general_log@) == all.take(it.index() as int).filter(young),
        {
            let ghost before = notices_view(self.general_log@);
            proof {
                crate::seq_facts::lemma_filter_step(all, it.index() as int, young);
                assert(all[it.index() as int] == (notice.0@, notice.1));
            }
            if notice.1 >= now || now - notice.1 < NOTICE_LIFETIME {
                self.general_log.push(notice);
                assert(notices_view(self.general_log@) =~= before.push((notice.0@, notice.1)));
            }
        }
        assert(all.take(all.len() as int) =~= all);
    }

    /// The lines of the chat, oldest first.
    pub fn get_chat_str_vec(&self) -> (lines: Vec<&str>)
        ensures
            lines@.len() == self@.chat.len(),
            forall|i: int| 0 <= i < lines@.len() ==> (#[trigger] lines@[i])@ == self@.chat[i],
    {
        let mut lines: Vec<&str> = Vec::new();
        let mut i: usize = 0;
        while i < self.chat_log.len()
            invariant
                i <= self.chat_log@.len(),
                lines@.len() == i,
                forall|j: int| 0 <= j < i ==> (#[trigger] lines@[j])@ == self.chat_log@[j]@,
            decreases self.chat_log@.len() - i,
        {
            lines.push(self.chat_log[i].as_str());
            i += 1;
        }
        lines
    }
}

} // verus!
