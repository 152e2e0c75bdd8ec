//! The embedding queue: which notes are handed to the host's embedder, what becomes of each, and
//! what the host is told.
//!
//! A pass over the queue is a machine. The caller performs the action that each step returns and
//! hands back what came of it; vectors and their arithmetic stay with the caller.

use crate::json::texts_view;
use crate::text::{
    blank, has_char, law_trimming_takes_white_space_only, same_text, surrounded, trim_text, trimmed,
    whitespace,
};
use crate::types::{embed_error, SyncError};
use vstd::prelude::*;
use vstd::string::StrSliceExecFns;

verus! {

/// The identity of a host's embedder.
#[derive(Debug)]
pub struct EmbedderDescriptor {
    pub model_id: String,
    pub quantization: String,
    pub dims: u32,
}

/// The largest vector that is taken.
pub const MAX_DIMS: u32 = 4096;

/// Whether an embedder's identity can be told from any other: a name, no separator in it.
pub open spec fn has_identity(d: EmbedderDescriptor) -> bool {
    d.model_id@.len() > 0 && !d.model_id@.contains('|') && !d.quantization@.contains('|')
}

/// Checks an embedder's identity and the length of its vectors.
pub fn check_descriptor(d: &EmbedderDescriptor) -> (result: Result<(), SyncError>)
    ensures
        match result {
            Ok(_) => has_identity(*d) && 1 <= d.dims <= MAX_DIMS,
            Err(e) => if !has_identity(*d) {
                embed_error(e, "embedder descriptor needs a non-empty, '|'-free identity"@)
            } else {
                !(1 <= d.dims <= MAX_DIMS) && embed_error(
                    e,
                    "embedder descriptor dims out of range (1..=4096)"@,
                )
            },
        },
{
    if d.model_id.as_str().unicode_len() == 0 || has_char(d.model_id.as_str(), '|') || has_char(
        d.quantization.as_str(),
        '|',
    ) {
        return Err(SyncError::embed("embedder descriptor needs a non-empty, '|'-free identity"));
    }
    if d.dims == 0 || d.dims > MAX_DIMS {
        return Err(SyncError::embed("embedder descriptor dims out of range (1..=4096)"));
    }
    Ok(())
}

/// What registering an embedder did to the vectors that were there.
#[derive(Debug, PartialEq, Eq, Structural)]
pub struct RegisterEmbedderSummary {
    pub corpus_changed: bool,
    pub invalidated: u32,
    pub pending: u32,
}

/// How many notes are waiting, as far as the count can be told.
pub open spec fn waiting(pending: i64) -> u32 {
    if pending < 0 {
        0
    } else {
        pending as u32
    }
}

/// How many notes are waiting.
pub fn pending_count(pending: i64) -> (count: u32)
    ensures
        count == waiting(pending),
{
    if pending < 0 {
        0
    } else {
        #[verifier::truncate]
        (pending as u32)
    }
}

/// What registering an embedder is reported as.
pub fn register_summary(invalidated: usize, pending: i64) -> (summary: RegisterEmbedderSummary)
    ensures
        summary == (RegisterEmbedderSummary {
            corpus_changed: invalidated > 0,
            invalidated: invalidated as u32,
            pending: waiting(pending),
        }),
{
    RegisterEmbedderSummary {
        corpus_changed: invalidated > 0,
        invalidated: #[verifier::truncate]
        (invalidated as u32),
        pending: pending_count(pending),
    }
}

/// What a pass over the queue did.
#[derive(Debug, PartialEq, Eq, Structural)]
pub struct EmbedSummary {
    pub attempted: u32,
    pub embedded: u32,
    pub skipped: u32,
    pub failed: u32,
    pub pending: u32,
}

/// A pass over the queue.
#[derive(Debug)]
pub struct EmbedPass {
    pub ids: Vec<String>,
    pub dims: u32,
    /// The note that is worked on.
    pub at: usize,
    pub attempted: u32,
    pub embedded: u32,
    pub skipped: u32,
    pub failed: u32,
}

/// What the caller does next.
#[derive(Debug)]
pub enum EmbedAction {
    /// Read the note with this key, and the token of its contents.
    ReadNote(String),
    /// Mark the note as having nothing to embed.
    MarkEmpty,
    /// Hand this text to the embedder.
    EmbedText(String),
    /// Bring the vector to unit length.
    Normalize,
    /// Seal and store the vector, unless the note has changed since.
    StoreVector,
    /// The pass is over.
    Done,
}

/// A note as it was read: its text opened, if it has one, and whether opening it failed.
#[derive(Debug)]
pub struct OpenedNote {
    pub text: Option<String>,
    pub decrypt_failed: bool,
}

/// What the embedder answered.
#[derive(Debug, Clone, Copy, PartialEq, Eq, Structural)]
pub enum EmbedReply {
    /// A vector of this length.
    Vector(usize),
    /// This text could not be embedded.
    Runtime,
    /// The embedder is gone.
    Unavailable,
}

pub enum EmbedActionV {
    ReadNote(Seq<char>),
    MarkEmpty,
    EmbedText(Seq<char>),
    Normalize,
    StoreVector,
    Done,
}

impl View for EmbedAction {
    type V = EmbedActionV;

    open spec fn view(&self) -> EmbedActionV {
        match *self {
            EmbedAction::ReadNote(id) => EmbedActionV::ReadNote(id@),
            EmbedAction::MarkEmpty => EmbedActionV::MarkEmpty,
            EmbedAction::EmbedText(text) => EmbedActionV::EmbedText(text@),
            EmbedAction::Normalize => EmbedActionV::Normalize,
            EmbedAction::StoreVector => EmbedActionV::StoreVector,
            EmbedAction::Done => EmbedActionV::Done,
        }
    }
}

/// A pass by its contents.
pub struct EmbedV {
    pub ids: Seq<Seq<char>>,
    pub dims: u32,
    pub at: int,
    pub attempted: int,
    pub embedded: int,
    pub skipped: int,
    pub failed: int,
}

impl View for EmbedPass {
    type V = EmbedV;

    open spec fn view(&self) -> EmbedV {
        EmbedV {
            ids: texts_view(self.ids@),
            dims: self.dims,
            at: self.at as int,
            attempted: self.attempted as int,
            embedded: self.embedded as int,
            skipped: self.skipped as int,
            failed: self.failed as int,
        }
    }
}

/// Takes up the note at the position, if there is one.
pub open spec fn take_up(p: EmbedV) -> (EmbedV, EmbedActionV) {
    if p.at < p.ids.len() {
        (EmbedV { attempted: p.attempted + 1, ..p }, EmbedActionV::ReadNote(p.ids[p.at]))
    } else {
        (p, EmbedActionV::Done)
    }
}

/// Goes on behind a note that was embedded.
pub open spec fn counted_embedded(p: EmbedV) -> (EmbedV, EmbedActionV) {
    take_up(EmbedV { at: p.at + 1, embedded: p.embedded + 1, ..p })
}

/// Goes on behind a note that was passed over.
pub open spec fn counted_skipped(p: EmbedV) -> (EmbedV, EmbedActionV) {
    take_up(EmbedV { at: p.at + 1, skipped: p.skipped + 1, ..p })
}

/// Goes on behind a note that failed.
pub open spec fn counted_failed(p: EmbedV) -> (EmbedV, EmbedActionV) {
    take_up(EmbedV { at: p.at + 1, failed: p.failed + 1, ..p })
}

/// The text of a note that is embedded: trimmed, if it could be opened and something is left.
pub open spec fn content_of(note: OpenedNote) -> Option<Seq<char>> {
    if note.decrypt_failed {
        None
    } else {
        match note.text {
            Some(text) => if trimmed(text@).len() == 0 {
                None
            } else {
                Some(trimmed(text@))
            },
            None => None,
        }
    }
}

/// Given the note: one that is gone is passed over, one without content is marked.
pub open spec fn with_note(p: EmbedV, note: Option<OpenedNote>) -> (EmbedV, EmbedActionV) {
    match note {
        None => counted_skipped(p),
        Some(n) => match content_of(n) {
            Some(text) => (p, EmbedActionV::EmbedText(text)),
            None => (p, EmbedActionV::MarkEmpty),
        },
    }
}

/// Given the embedder's answer: a failure ends the note, an embedder that is gone ends the pass.
pub open spec fn with_reply(p: EmbedV, reply: EmbedReply) -> (EmbedV, EmbedActionV) {
    match reply {
        EmbedReply::Vector(len) => if len == p.dims {
            (p, EmbedActionV::Normalize)
        } else {
            counted_failed(p)
        },
        EmbedReply::Runtime => counted_failed(p),
        EmbedReply::Unavailable => (
            EmbedV { failed: p.failed + 1, at: p.at + 1, ..p },
            EmbedActionV::Done,
        ),
    }
}

/// Given whether the vector could be brought to unit length.
pub open spec fn with_unit(p: EmbedV, usable: bool) -> (EmbedV, EmbedActionV) {
    if usable {
        (p, EmbedActionV::StoreVector)
    } else {
        counted_failed(p)
    }
}

/// Given whether the vector was stored: a note that changed meanwhile is passed over.
pub open spec fn with_stored(p: EmbedV, wrote: bool) -> (EmbedV, EmbedActionV) {
    if wrote {
        counted_embedded(p)
    } else {
        counted_skipped(p)
    }
}

/// Every note that was taken up before the one at hand has been counted once.
pub open spec fn balanced(p: EmbedV) -> bool {
    &&& 0 <= p.at <= p.ids.len()
    &&& p.embedded + p.skipped + p.failed == p.at
    &&& p.embedded >= 0 && p.skipped >= 0 && p.failed >= 0
}

impl EmbedPass {
    /// Whether a note is being worked on.
    pub open spec fn on_note(&self) -> bool {
        &&& self.at < self.ids.len()
        &&& self.ids@.len() <= u32::MAX
        &&& self.attempted == self.at + 1
        &&& balanced(self@)
    }

    /// Whether the pass is over.
    pub open spec fn over(&self) -> bool {
        self.attempted == self.at && balanced(self@)
    }

    /// Whether the next step finds the pass as it should be.
    pub open spec fn fits(&self, action: EmbedAction) -> bool {
        if action is Done {
            self.over()
        } else {
            self.on_note()
        }
    }

    fn next(&mut self) -> (action: EmbedAction)
        requires
            old(self).at <= old(self).ids.len(),
            old(self).ids@.len() <= u32::MAX,
            old(self).attempted == old(self).at,
            balanced(old(self)@),
        ensures
            (final(self)@, action@) == take_up(old(self)@),
            final(self).fits(action),
    {
        if self.at < self.ids.len() {
            self.attempted = self.attempted + 1;
            EmbedAction::ReadNote(self.ids[self.at].clone())
        } else {
            EmbedAction::Done
        }
    }

    /// Begins a pass over the notes that are waiting.
    pub fn start(ids: Vec<String>, dims: u32) -> (step: (EmbedPass, EmbedAction))
        requires
            ids@.len() <= u32::MAX,
        ensures
            (step.0@, step.1@) == take_up(
                EmbedV {
                    ids: texts_view(ids@),
                    dims,
                    at: 0,
                    attempted: 0,
                    embedded: 0,
                    skipped: 0,
                    failed: 0,
                },
            ),
            step.0.fits(step.1),
    {
        let mut pass = EmbedPass {
            ids,
            dims,
            at: 0,
            attempted: 0,
            embedded: 0,
            skipped: 0,
            failed: 0,
        };
        let action = pass.next();
        (pass, action)
    }

    fn count_skipped(&mut self) -> (action: EmbedAction)
        requires
            old(self).on_note(),
        ensures
            (final(self)@, action@) == counted_skipped(old(self)@),
            final(self).fits(action),
    {
        self.skipped = self.skipped + 1;
        self.at = self.at + 1;
        self.next()
    }

    fn count_failed(&mut self) -> (action: EmbedAction)
        requires
            old(self).on_note(),
        ensures
            (final(self)@, action@) == counted_failed(old(self)@),
            final(self).fits(action),
    {
        self.failed = self.failed + 1;
        self.at = self.at + 1;
        self.next()
    }

    /// Takes the note that was read; nothing where it or its token is gone.
    pub fn take_note(&mut self, note: Option<OpenedNote>) -> (action: EmbedAction)
        requires
            old(self).on_note(),
        ensures
            (final(self)@, action@) == with_note(old(self)@, note),
            final(self).fits(action),
    {
        match note {
            None => self.count_skipped(),
            Some(n) => {
                if n.decrypt_failed {
                    return EmbedAction::MarkEmpty;
                }
                match &n.text {
                    Some(text) => {
                        let content = trim_text(text.as_str());
                        if content.unicode_len() == 0 {
                            EmbedAction::MarkEmpty
                        } else {
                            EmbedAction::EmbedText(content.to_owned())
                        }
                    },
                    None => EmbedAction::MarkEmpty,
                }
            },
        }
    }

    /// Goes on after a note was marked as having nothing to embed.
    pub fn take_marked(&mut self) -> (action: EmbedAction)
        requires
            old(self).on_note(),
        ensures
            (final(self)@, action@) == counted_skipped(old(self)@),
            final(self).fits(action),
    {
        self.count_skipped()
    }

    /// Takes the embedder's answer.
    pub fn take_reply(&mut self, reply: EmbedReply) -> (action: EmbedAction)
        requires
            old(self).on_note(),
        ensures
            (final(self)@, action@) == with_reply(old(self)@, reply),
            final(self).fits(action),
    {
        match reply {
            EmbedReply::Vector(len) => if len as u64 == self.dims as u64 {
                EmbedAction::Normalize
            } else {
                self.count_failed()
            },
            EmbedReply::Runtime => self.count_failed(),
            EmbedReply::Unavailable => {
                self.failed = self.failed + 1;
                self.at = self.at + 1;
                EmbedAction::Done
            },
        }
    }

    /// Takes whether the vector could be brought to unit length.
    pub fn take_unit(&mut self, usable: bool) -> (action: EmbedAction)
        requires
            old(self).on_note(),
        ensures
            (final(self)@, action@) == with_unit(old(self)@, usable),
            final(self).fits(action),
    {
        if usable {
            EmbedAction::StoreVector
        } else {
            self.count_failed()
        }
    }

    /// Takes whether the vector was stored.
    pub fn take_stored(&mut self, wrote: bool) -> (action: EmbedAction)
        requires
            old(self).on_note(),
        ensures
            (final(self)@, action@) == with_stored(old(self)@, wrote),
            final(self).fits(action),
    {
        if wrote {
            self.embedded = self.embedded + 1;
            self.at = self.at + 1;
            self.next()
        } else {
            self.count_skipped()
        }
    }

    /// What the pass is reported as.
    pub fn summary(&self, pending: i64) -> (summary: EmbedSummary)
        ensures
            summary == (EmbedSummary {
                attempted: self.attempted,
                embedded: self.embedded,
                skipped: self.skipped,
                failed: self.failed,
                pending: waiting(pending),
            }),
    {
        EmbedSummary {
            attempted: self.attempted,
            embedded: self.embedded,
            skipped: self.skipped,
            failed: self.failed,
            pending: pending_count(pending),
        }
    }
}

/// Whether a search has anything to look for.
pub fn wants_search(query: &str, limit: u32) -> (yes: bool)
    ensures
        yes == (trimmed(query@).len() > 0 && limit > 0),
{
    trim_text(query).unicode_len() > 0 && limit > 0
}

/// Checks the length of a query's vector.
pub fn check_query_length(len: usize, dims: u32) -> (result: Result<(), SyncError>)
    ensures
        match result {
            Ok(_) => len == dims,
            Err(e) => len != dims && embed_error(
                e,
                "embedder returned a query vector of the wrong dimension"@,
            ),
        },
{
    if len as u64 == dims as u64 {
        Ok(())
    } else {
        Err(SyncError::embed("embedder returned a query vector of the wrong dimension"))
    }
}

/// Checks that a query's vector could be brought to unit length.
pub fn check_query_vector(usable: bool) -> (result: Result<(), SyncError>)
    ensures
        match result {
            Ok(_) => usable,
            Err(e) => !usable && embed_error(
                e,
                "embedder returned a zero or non-finite query vector"@,
            ),
        },
{
    if usable {
        Ok(())
    } else {
        Err(SyncError::embed("embedder returned a zero or non-finite query vector"))
    }
}

/// What a scan makes of the stored vectors: those that are compared, by position, and the notes
/// whose vectors cannot be read and are dropped.
#[derive(Debug)]
pub struct ScanSplit {
    pub compared: Vec<usize>,
    pub corrupt: Vec<String>,
}

/// Whether a note is left out of a scan.
pub open spec fn left_out(id: Seq<char>, exclude: Option<Seq<char>>) -> bool {
    exclude == Some(id)
}

/// The vectors that are compared.
pub open spec fn compared(
    ids: Seq<Seq<char>>,
    readable: Seq<bool>,
    exclude: Option<Seq<char>>,
) -> Seq<usize>
    decreases ids.len(),
{
    if ids.len() == 0 {
        Seq::empty()
    } else {
        let before = compared(ids.drop_last(), readable, exclude);
        let at = ids.len() - 1;
        if !left_out(ids[at], exclude) && readable[at] {
            before.push(at as usize)
        } else {
            before
        }
    }
}

/// The notes whose vectors cannot be read.
pub open spec fn corrupt(
    ids: Seq<Seq<char>>,
    readable: Seq<bool>,
    exclude: Option<Seq<char>>,
) -> Seq<Seq<char>>
    decreases ids.len(),
{
    if ids.len() == 0 {
        Seq::empty()
    } else {
        let before = corrupt(ids.drop_last(), readable, exclude);
        let at = ids.len() - 1;
        if !left_out(ids[at], exclude) && !readable[at] {
            before.push(ids[at])
        } else {
            before
        }
    }
}

fn is_left_out(id: &str, exclude: Option<&str>) -> (yes: bool)
    ensures
        yes == left_out(
            id@,
            match exclude {
                Some(e) => Some(e@),
                None => None,
            },
        ),
{
    match exclude {
        Some(e) => same_text(e, id),
        None => false,
    }
}

/// Splits the stored vectors of a scan, given which of them could be read.
pub fn split_scan(ids: &Vec<String>, readable: &Vec<bool>, exclude: Option<&str>) -> (split: ScanSplit)
    requires
        readable@.len() == ids@.len(),
    ensures
        split.compared@ == compared(
            texts_view(ids@),
            readable@,
            match exclude {
                Some(e) => Some(e@),
                None => None,
            },
        ),
        texts_view(split.corrupt@) == corrupt(
            texts_view(ids@),
            readable@,
            match exclude {
                Some(e) => Some(e@),
                None => None,
            },
        ),
{
    let ghost all = texts_view(ids@);
    let ghost without = match exclude {
        Some(e) => Some(e@),
        None => None,
    };
    let mut split = ScanSplit { compared: Vec::new(), corrupt: Vec::new() };
    let mut i: usize = 0;
    assert(all.take(0) =~= Seq::empty());
    assert(texts_view(split.corrupt@) =~= Seq::empty());
    while i < ids.len()
        invariant
            i <= ids@.len(),
            readable@.len() == ids@.len(),
            all == texts_view(ids@),
            without == (match exclude {
                Some(e) => Some(e@),
                None => None,
            }),
            split.compared@ == compared(all.take(i as int), readable@, without),
            texts_view(split.corrupt@) == corrupt(all.take(i as int), readable@, without),
        decreases ids.len() - i,
    {
        assert(all.take(i + 1).drop_last() =~= all.take(i as int));
        assert(all.take(i + 1)[i as int] == ids@[i as int]@);
        let ghost held = texts_view(split.corrupt@);
        if !is_left_out(ids[i].as_str(), exclude) {
            if readable[i] {
                split.compared.push(i);
            } else {
                let id = ids[i].clone();
                split.corrupt.push(id);
                assert(texts_view(split.corrupt@) =~= held.push(id@));
            }
        }
        i = i + 1;
    }
    assert(all.take(all.len() as int) =~= all);
    split
}

/// Every step counts each note once: what was taken up is embedded, passed over, failed, or at
/// hand.
pub proof fn law_every_note_is_counted_once(
    p: EmbedV,
    note: Option<OpenedNote>,
    reply: EmbedReply,
    flag: bool,
)
    requires
        balanced(p),
        p.at < p.ids.len(),
    ensures
        balanced(with_note(p, note).0),
        balanced(with_reply(p, reply).0),
        balanced(with_unit(p, flag).0),
        balanced(with_stored(p, flag).0),
        balanced(counted_skipped(p).0),
{
}

/// A note that cannot be embedded does not hold up the others: the next one is taken up.
pub proof fn law_one_failure_does_not_halt(p: EmbedV, reply: EmbedReply)
    requires
        balanced(p),
        p.at + 1 < p.ids.len(),
        match reply {
            EmbedReply::Vector(len) => len != p.dims,
            EmbedReply::Runtime => true,
            EmbedReply::Unavailable => false,
        },
    ensures
        with_reply(p, reply).1 == EmbedActionV::ReadNote(p.ids[p.at + 1]),
        with_reply(p, reply).0.failed == p.failed + 1,
{
}

/// An embedder that is gone ends the pass at once.
pub proof fn law_gone_embedder_ends_the_pass(p: EmbedV)
    ensures
        with_reply(p, EmbedReply::Unavailable).1 is Done,
        with_reply(p, EmbedReply::Unavailable).0.failed == p.failed + 1,
{
}

/// No vector of a wrong length is ever stored.
pub proof fn law_no_wrong_vector_is_stored(p: EmbedV, len: usize)
    requires
        len != p.dims,
    ensures
        !(with_reply(p, EmbedReply::Vector(len)).1 is Normalize),
        !(with_reply(p, EmbedReply::Vector(len)).1 is StoreVector),
{
}

/// A note never finds itself.
pub proof fn law_probe_is_left_out(
    ids: Seq<Seq<char>>,
    readable: Seq<bool>,
    probe: Seq<char>,
    i: int,
)
    requires
        ids.len() <= usize::MAX,
        0 <= i < compared(ids, readable, Some(probe)).len(),
    ensures
        compared(ids, readable, Some(probe))[i] < ids.len(),
        ids[compared(ids, readable, Some(probe))[i] as int] != probe,
        readable[compared(ids, readable, Some(probe))[i] as int],
    decreases ids.len(),
{
    let before = ids.drop_last();
    let held = compared(before, readable, Some(probe));
    if i < held.len() {
        law_probe_is_left_out(before, readable, probe, i);
        assert(before[held[i] as int] == ids[held[i] as int]);
    }
}

/// A note that was opened and whose text is not blank is embedded by its whole text without the
/// white space at its ends: the text is some white space, then what is handed to the embedder, then
/// some white space. Nothing is counted yet.
pub proof fn law_whole_text_is_embedded(p: EmbedV, note: OpenedNote, text: String)
    requires
        !note.decrypt_failed,
        note.text == Some(text),
        !blank(text@),
    ensures
        with_note(p, Some(note)).0 == p,
        with_note(p, Some(note)).1 matches EmbedActionV::EmbedText(handed) && {
            &&& exists|front: Seq<char>, back: Seq<char>| #[trigger]
                surrounded(text@, front, handed, back)
            &&& handed.len() > 0
            &&& !whitespace(handed[0])
            &&& !whitespace(handed.last())
        },
{
    law_trimming_takes_white_space_only(text@);
}

/// A note is marked as having nothing to embed if and only if it could not be opened, has no text,
/// or has a blank one. A note that is gone is passed over.
pub proof fn law_only_empty_notes_are_marked(p: EmbedV, note: OpenedNote)
    requires
        p.at < p.ids.len(),
    ensures
        with_note(p, Some(note)).1 is MarkEmpty <==> note.decrypt_failed || note.text is None
            || blank(note.text->Some_0@),
        with_note(p, Some(note)).1 is MarkEmpty ==> with_note(p, Some(note)).0 == p,
        moves_on(p, with_note(p, None), 0, 1, 0),
        moves_on(p, counted_skipped(p), 0, 1, 0),
{
    if note.text is Some {
        law_trimming_takes_white_space_only(note.text->Some_0@);
    }
}

/// Whether a step closes the note at hand, adds these numbers to the three counts and takes up the
/// next note, or ends the pass where there is none.
pub open spec fn moves_on(
    p: EmbedV,
    step: (EmbedV, EmbedActionV),
    embedded: int,
    skipped: int,
    failed: int,
) -> bool {
    &&& step.0.ids == p.ids
    &&& step.0.dims == p.dims
    &&& step.0.at == p.at + 1
    &&& step.0.embedded == p.embedded + embedded
    &&& step.0.skipped == p.skipped + skipped
    &&& step.0.failed == p.failed + failed
    &&& if p.at + 1 < p.ids.len() {
        step.0.attempted == p.attempted + 1 && step.1 == EmbedActionV::ReadNote(p.ids[p.at + 1])
    } else {
        step.0.attempted == p.attempted && step.1 is Done
    }
}

/// What becomes of a note: a vector of the embedder's length is normalized, a usable one stored,
/// and a stored one counted as embedded. A vector of another length, one that cannot be used and a
/// text that cannot be embedded count as failed, and a note that changed meanwhile as passed over.
pub proof fn law_outcomes_are_counted(p: EmbedV, len: usize)
    ensures
        len == p.dims ==> with_reply(p, EmbedReply::Vector(len)) == (p, EmbedActionV::Normalize),
        len != p.dims ==> moves_on(p, with_reply(p, EmbedReply::Vector(len)), 0, 0, 1),
        moves_on(p, with_reply(p, EmbedReply::Runtime), 0, 0, 1),
        with_unit(p, true) == (p, EmbedActionV::StoreVector),
        moves_on(p, with_unit(p, false), 0, 0, 1),
        moves_on(p, with_stored(p, true), 1, 0, 0),
        moves_on(p, with_stored(p, false), 0, 1, 0),
{
}

/// A pass begins with the first note that is waiting, and is over at once where none is.
pub proof fn law_pass_begins_with_the_first(ids: Seq<Seq<char>>, dims: u32)
    ensures
        ({
            let fresh = EmbedV {
                ids,
                dims,
                at: 0,
                attempted: 0,
                embedded: 0,
                skipped: 0,
                failed: 0,
            };
            if ids.len() == 0 {
                take_up(fresh) == (fresh, EmbedActionV::Done)
            } else {
                &&& take_up(fresh).0 == (EmbedV { attempted: 1, ..fresh })
                &&& take_up(fresh).1 == EmbedActionV::ReadNote(ids[0])
            }
        }),
{
}

/// A scan compares every vector that can be read and is not left out, once, in order.
pub proof fn law_readable_vectors_are_compared(
    ids: Seq<Seq<char>>,
    readable: Seq<bool>,
    exclude: Option<Seq<char>>,
    at: usize,
)
    requires
        ids.len() <= usize::MAX,
    ensures
        compared(ids, readable, exclude).contains(at) <==> at < ids.len() && readable[at as int]
            && exclude != Some(ids[at as int]),
        forall|i: int, j: int|
            0 <= i < j < compared(ids, readable, exclude).len() ==> compared(
                ids,
                readable,
                exclude,
            )[i] < compared(ids, readable, exclude)[j],
        forall|i: int|
            0 <= i < compared(ids, readable, exclude).len() ==> #[trigger] compared(
                ids,
                readable,
                exclude,
            )[i] < ids.len(),
    decreases ids.len(),
{
    if ids.len() > 0 {
        let before = compared(ids.drop_last(), readable, exclude);
        let all = compared(ids, readable, exclude);
        law_readable_vectors_are_compared(ids.drop_last(), readable, exclude, at);
        if before.contains(at) {
            let i = choose|i: int| 0 <= i < before.len() && before[i] == at;
            assert(all[i] == at);
        }
        if all.len() > before.len() {
            assert(all[before.len() as int] == (ids.len() - 1) as usize);
        }
        if all.contains(at) {
            let i = choose|i: int| 0 <= i < all.len() && all[i] == at;
            if i < before.len() {
                assert(before[i] == at);
            }
        }
    }
}

/// A scan drops the notes whose vectors cannot be read and that are not left out, and no others.
pub proof fn law_unreadable_vectors_are_dropped(
    ids: Seq<Seq<char>>,
    readable: Seq<bool>,
    exclude: Option<Seq<char>>,
    id: Seq<char>,
)
    ensures
        corrupt(ids, readable, exclude).contains(id) <==> exclude != Some(id) && exists|i: int|
            0 <= i < ids.len() && #[trigger] ids[i] == id && !readable[i],
    decreases ids.len(),
{
    if ids.len() > 0 {
        let last = ids.len() - 1;
        let rest = ids.drop_last();
        let before = corrupt(rest, readable, exclude);
        let all = corrupt(ids, readable, exclude);
        law_unreadable_vectors_are_dropped(rest, readable, exclude, id);
        if before.contains(id) {
            let i = choose|i: int| 0 <= i < before.len() && before[i] == id;
            assert(all[i] == id);
            let k = choose|k: int| 0 <= k < rest.len() && #[trigger] rest[k] == id && !readable[k];
            assert(ids[k] == id);
        }
        if all.contains(id) {
            let i = choose|i: int| 0 <= i < all.len() && all[i] == id;
            if i < before.len() {
                assert(before[i] == id);
            } else {
                assert(ids[last] == id && !readable[last]);
            }
        }
        if exclude != Some(id) && exists|i: int|
            0 <= i < ids.len() && #[trigger] ids[i] == id && !readable[i] {
            let k = choose|k: int| 0 <= k < ids.len() && #[trigger] ids[k] == id && !readable[k];
            if k < last {
                assert(rest[k] == id);
            } else {
                assert(all[before.len() as int] == id);
            }
        }
    }
}

/// The count of waiting notes is the store's count, and zero where the store has none to tell.
pub proof fn law_waiting_notes_are_counted(pending: i64)
    ensures
        pending <= 0 ==> waiting(pending) == 0,
        0 <= pending <= u32::MAX ==> waiting(pending) == pending,
{
}

} // verus!
