//! Enriching a new Anki card: the files and note fields it gets, and the
//! order of the work (cut the sentence audio and store it; try an animated
//! AVIF clip when enabled, else or on failure a still screenshot; update the
//! note's fields; add the configured tags). The work is a state machine: the
//! outcome of each piece of outside work gives the next action.
use vstd::prelude::*;
use crate::config::AnkiConfig;
use crate::media_server::div_toward_zero;
use crate::text::{
    append, append_str, chars_of, i64_text, int_text, join_chars, join_seq, opt_view, owned, string_of,
};

verus! {

/// What an enrichment stores and writes, fixed before the work starts.
pub struct EnrichmentPlan {
    pub start_ms: i64,
    pub end_ms: i64,
    /// The frame of the still screenshot: the middle of the clip.
    pub screenshot_ms: i64,
    pub audio_filename: String,
    /// The animated clip's file, when one is to be made.
    pub avif_filename: Option<String>,
    pub screenshot_filename: String,
    pub sentence_audio_field: String,
    pub picture_field: String,
    pub sentence_field: String,
    /// The field that gets the title, when one is configured.
    pub source_field: Option<String>,
    pub sentence: Option<String>,
    pub title: String,
    /// The tags to add, separated by spaces; empty when none.
    pub tags: String,
}

/// A plan as values.
pub struct PlanView {
    pub start_ms: i64,
    pub end_ms: i64,
    pub screenshot_ms: i64,
    pub audio_filename: Seq<char>,
    pub avif_filename: Option<Seq<char>>,
    pub screenshot_filename: Seq<char>,
    pub sentence_audio_field: Seq<char>,
    pub picture_field: Seq<char>,
    pub sentence_field: Seq<char>,
    pub source_field: Option<Seq<char>>,
    pub sentence: Option<Seq<char>>,
    pub title: Seq<char>,
    pub tags: Seq<char>,
}

impl View for EnrichmentPlan {
    type V = PlanView;

    open spec fn view(&self) -> PlanView {
        PlanView {
            start_ms: self.start_ms,
            end_ms: self.end_ms,
            screenshot_ms: self.screenshot_ms,
            audio_filename: self.audio_filename@,
            avif_filename: opt_view(self.avif_filename),
            screenshot_filename: self.screenshot_filename@,
            sentence_audio_field: self.sentence_audio_field@,
            picture_field: self.picture_field@,
            sentence_field: self.sentence_field@,
            source_field: opt_view(self.source_field),
            sentence: opt_view(self.sentence),
            title: self.title@,
            tags: self.tags@,
        }
    }
}

/// `nagare_{item}_{ms}` followed by `suffix`: the name of a stored file.
pub open spec fn media_name(item_id: Seq<char>, ms: int, suffix: Seq<char>) -> Seq<char> {
    "nagare_"@ + item_id + "_"@ + int_text(ms) + suffix
}

/// The plan of an enrichment of the clip from `start_ms` to `end_ms` of
/// the item: Opus audio and (when enabled) an AVIF clip named by the item
/// and the start, a WebP still of the middle frame, and the configured
/// fields and tags (a source field that is empty counts as none).
pub open spec fn enrichment_plan_spec(
    cfg: AnkiConfig,
    item_id: Seq<char>,
    start_ms: i64,
    end_ms: i64,
    sentence: Option<Seq<char>>,
    title: Seq<char>,
    generate_avif: bool,
) -> PlanView {
    let mid = div_toward_zero(start_ms + end_ms, 2);
    PlanView {
        start_ms,
        end_ms,
        screenshot_ms: mid as i64,
        audio_filename: media_name(item_id, start_ms as int, ".opus"@),
        avif_filename: if generate_avif {
            Some(media_name(item_id, start_ms as int, ".avif"@))
        } else {
            None
        },
        screenshot_filename: media_name(item_id, mid, "_ss.webp"@),
        sentence_audio_field: cfg.fields.sentence_audio@,
        picture_field: cfg.fields.picture@,
        sentence_field: cfg.fields.sentence@,
        source_field: match cfg.fields.source_name {
            Some(f) => if f@.len() > 0 {
                Some(f@)
            } else {
                None
            },
            None => None,
        },
        sentence,
        title,
        tags: join_seq(cfg.add_tags@.map_values(|t: String| t@), " "@),
    }
}

fn media_name_exec(item_id: &str, ms: i64, suffix: &str) -> (r: String)
    ensures
        r@ == media_name(item_id@, ms as int, suffix@),
{
    let mut t: Vec<char> = Vec::new();
    append_str(&mut t, "nagare_");
    append_str(&mut t, item_id);
    append_str(&mut t, "_");
    append(&mut t, &i64_text(ms));
    append_str(&mut t, suffix);
    string_of(&t)
}

/// The plan of an enrichment (see [`enrichment_plan_spec`]).
pub fn enrichment_plan(
    cfg: &AnkiConfig,
    item_id: &str,
    start_ms: i64,
    end_ms: i64,
    sentence: Option<&str>,
    title: &str,
    generate_avif: bool,
) -> (r: EnrichmentPlan)
    requires
        i64::MIN <= start_ms + end_ms <= i64::MAX,
    ensures
        r@ == enrichment_plan_spec(
            *cfg,
            item_id@,
            start_ms,
            end_ms,
            match sentence {
                Some(s) => Some(s@),
                None => None,
            },
            title@,
            generate_avif,
        ),
{
    let mid = (start_ms + end_ms) / 2;
    let mut pieces: Vec<Vec<char>> = Vec::new();
    let mut k: usize = 0;
    while k < cfg.add_tags.len()
        invariant
            k <= cfg.add_tags@.len(),
            pieces@.map_values(|v: Vec<char>| v@) == cfg.add_tags@.take(k as int).map_values(|t: String| t@),
        decreases cfg.add_tags.len() - k,
    {
        let ghost before = pieces@.map_values(|v: Vec<char>| v@);
        pieces.push(chars_of(cfg.add_tags[k].as_str()));
        assert(pieces@.map_values(|v: Vec<char>| v@) =~= before.push(cfg.add_tags@[k as int]@));
        assert(cfg.add_tags@.take(k + 1).map_values(|t: String| t@) =~= cfg.add_tags@.take(k as int).map_values(
            |t: String| t@,
        ).push(cfg.add_tags@[k as int]@));
        k += 1;
    }
    assert(cfg.add_tags@.take(cfg.add_tags@.len() as int) =~= cfg.add_tags@);
    let tags = string_of(&join_chars(&pieces, &chars_of(" ")));
    let source_field = match &cfg.fields.source_name {
        Some(f) => if f.as_str().is_empty() {
            None
        } else {
            Some(owned(f.as_str()))
        },
        None => None,
    };
    EnrichmentPlan {
        start_ms,
        end_ms,
        screenshot_ms: mid,
        audio_filename: media_name_exec(item_id, start_ms, ".opus"),
        avif_filename: if generate_avif {
            Some(media_name_exec(item_id, start_ms, ".avif"))
        } else {
            None
        },
        screenshot_filename: media_name_exec(item_id, mid, "_ss.webp"),
        sentence_audio_field: owned(cfg.fields.sentence_audio.as_str()),
        picture_field: owned(cfg.fields.picture.as_str()),
        sentence_field: owned(cfg.fields.sentence.as_str()),
        source_field,
        sentence: match sentence {
            Some(s) => Some(owned(s)),
            None => None,
        },
        title: owned(title),
        tags,
    }
}

// ---------------------------------------------------------------------------
// Note fields
// ---------------------------------------------------------------------------

/// Sets a field: its value is replaced where the name is present, else the
/// field is added.
pub open spec fn put_field(
    fields: Seq<(Seq<char>, Seq<char>)>,
    name: Seq<char>,
    value: Seq<char>,
) -> Seq<(Seq<char>, Seq<char>)>
    decreases fields.len(),
{
    if fields.len() == 0 {
        seq![(name, value)]
    } else if fields[0].0 == name {
        seq![(name, value)] + fields.skip(1)
    } else {
        seq![fields[0]] + put_field(fields.skip(1), name, value)
    }
}

/// The `<img>` element showing a stored picture.
pub open spec fn img_html(filename: Seq<char>) -> Seq<char> {
    "<img src=\""@ + filename + "\">"@
}

/// The fields written to the note, given the stored picture: the sentence
/// audio as `[sound:…]`, then the picture (when one was stored), the
/// sentence (when given) and the title (when a source field is set), each
/// replacing an earlier field of the same name.
pub open spec fn note_fields_spec(plan: PlanView, picture: Option<Seq<char>>) -> Seq<(Seq<char>, Seq<char>)> {
    let f1 = seq![(plan.sentence_audio_field, "[sound:"@ + plan.audio_filename + "]"@)];
    let f2 = match picture {
        Some(p) => put_field(f1, plan.picture_field, img_html(p)),
        None => f1,
    };
    let f3 = match plan.sentence {
        Some(s) => put_field(f2, plan.sentence_field, s),
        None => f2,
    };
    match plan.source_field {
        Some(f) => put_field(f3, f, plan.title),
        None => f3,
    }
}

/// A list of fields as values.
pub open spec fn fields_view(fields: Seq<(String, String)>) -> Seq<(Seq<char>, Seq<char>)> {
    fields.map_values(|f: (String, String)| (f.0@, f.1@))
}

fn put_field_exec(fields: &mut Vec<(String, String)>, name: String, value: String)
    ensures
        fields_view(final(fields)@) == put_field(fields_view(old(fields)@), name@, value@),
{
    let ghost start = fields_view(fields@);
    assert(start.skip(0) =~= start);
    assert(start.take(0) + put_field(start, name@, value@) =~= put_field(start, name@, value@));
    let mut k: usize = 0;
    while k < fields.len()
        invariant
            k <= fields@.len(),
            fields@ == old(fields)@,
            start == fields_view(fields@),
            forall|j: int| 0 <= j < k ==> fields@[j].0@ != name@,
            put_field(start, name@, value@) == start.take(k as int) + put_field(start.skip(k as int), name@, value@),
        decreases fields.len() - k,
    {
        if crate::text::str_equal(fields[k].0.as_str(), name.as_str()) {
            let ghost before = fields@;
            assert(start.skip(k as int)[0].0 == name@);
            assert(start.skip(k as int).skip(1) =~= start.skip(k + 1));
            fields.set(k, (name, value));
            assert(fields_view(fields@) =~= start.take(k as int) + (seq![(name@, value@)] + start.skip(k + 1)));
            return;
        }
        assert(start.skip(k as int)[0] == start[k as int]);
        assert(start.skip(k as int).skip(1) =~= start.skip(k + 1));
        assert(start.take(k + 1) =~= start.take(k as int) + seq![start[k as int]]);
        k += 1;
    }
    assert(start.skip(k as int) =~= Seq::<(Seq<char>, Seq<char>)>::empty());
    assert(start.take(k as int) =~= start);
    let ghost before = fields@;
    fields.push((name, value));
    assert(fields_view(fields@) =~= start + seq![(name@, value@)]);
}

/// The fields written to the note (see [`note_fields_spec`]).
pub fn note_fields(plan: &EnrichmentPlan, picture: Option<&str>) -> (r: Vec<(String, String)>)
    ensures
        fields_view(r@) == note_fields_spec(
            plan@,
            match picture {
                Some(p) => Some(p@),
                None => None,
            },
        ),
{
    let mut sound: Vec<char> = Vec::new();
    append_str(&mut sound, "[sound:");
    append_str(&mut sound, plan.audio_filename.as_str());
    append_str(&mut sound, "]");
    let mut fields: Vec<(String, String)> = Vec::new();
    fields.push((owned(plan.sentence_audio_field.as_str()), string_of(&sound)));
    assert(fields_view(fields@) =~= seq![(plan@.sentence_audio_field, "[sound:"@ + plan@.audio_filename + "]"@)]);
    match picture {
        Some(p) => {
            let mut img: Vec<char> = Vec::new();
            append_str(&mut img, "<img src=\"");
            append_str(&mut img, p);
            append_str(&mut img, "\">");
            put_field_exec(&mut fields, owned(plan.picture_field.as_str()), string_of(&img));
        },
        None => {},
    }
    match &plan.sentence {
        Some(s) => put_field_exec(&mut fields, owned(plan.sentence_field.as_str()), owned(s.as_str())),
        None => {},
    }
    match &plan.source_field {
        Some(f) => put_field_exec(&mut fields, owned(f.as_str()), owned(plan.title.as_str())),
        None => {},
    }
    fields
}


// ---------------------------------------------------------------------------
// The work
// ---------------------------------------------------------------------------

/// Where an enrichment stands.
#[derive(Clone, Copy, Debug, PartialEq, Eq, Structural)]
pub enum EnrichmentStage {
    Start,
    ExtractingAudio,
    StoringAudio,
    MakingAvif,
    StoringAvif,
    MakingScreenshot,
    StoringScreenshot,
    UpdatingNote,
    AddingTags,
    Done,
}

/// An enrichment in progress: its plan, its stage and the picture stored
/// so far.
pub struct EnrichmentState {
    pub plan: EnrichmentPlan,
    pub stage: EnrichmentStage,
    pub picture: Option<String>,
}

/// An enrichment as values.
pub struct EnrichmentView {
    pub plan: PlanView,
    pub stage: EnrichmentStage,
    pub picture: Option<Seq<char>>,
}

impl View for EnrichmentState {
    type V = EnrichmentView;

    open spec fn view(&self) -> EnrichmentView {
        EnrichmentView { plan: self.plan@, stage: self.stage, picture: opt_view(self.picture) }
    }
}

impl EnrichmentState {
    /// An enrichment about to start.
    pub fn new(plan: EnrichmentPlan) -> (r: Self)
        ensures
            r@ == (EnrichmentView { plan: plan@, stage: EnrichmentStage::Start, picture: None }),
    {
        EnrichmentState { plan, stage: EnrichmentStage::Start, picture: None }
    }
}

/// The outcome of the last piece of work.
pub enum EnrichmentEvent {
    /// Start the work.
    Begin,
    /// The audio, clip or screenshot was made.
    Made,
    MakeFailed(String),
    /// The file was stored in Anki.
    Stored,
    StoreFailed(String),
    NoteUpdated,
    NoteUpdateFailed(String),
    /// Adding the tags finished (a failure only warns).
    TagsDone,
}

/// The next piece of work.
pub enum EnrichmentAction {
    /// Cut the sentence audio of the clip.
    ExtractAudio { start_ms: i64, end_ms: i64 },
    /// Make the animated clip.
    GenerateAvif { start_ms: i64, end_ms: i64 },
    /// Take a still of this frame.
    GenerateScreenshot { time_ms: i64 },
    /// Store the file just made in Anki under this name.
    StoreMedia { filename: String },
    /// Write these fields to the note.
    UpdateNote { fields: Vec<(String, String)> },
    /// Add these tags (separated by spaces) to the note.
    AddTags { tags: String },
    /// The enrichment ended, with the error that stopped it.
    Finish { error: Option<String> },
    /// The event does not belong to this stage: nothing to do.
    Nothing,
}

/// Whether the action stores a file under this name.
pub open spec fn stores(a: EnrichmentAction, name: Seq<char>) -> bool {
    match a {
        EnrichmentAction::StoreMedia { filename } => filename@ == name,
        _ => false,
    }
}

/// Whether the action cuts the clip of the plan: the animated clip
/// (`avif`) or the sentence audio.
pub open spec fn cuts(a: EnrichmentAction, plan: PlanView, avif: bool) -> bool {
    match a {
        EnrichmentAction::ExtractAudio { start_ms, end_ms } => !avif && start_ms == plan.start_ms && end_ms
            == plan.end_ms,
        EnrichmentAction::GenerateAvif { start_ms, end_ms } => avif && start_ms == plan.start_ms && end_ms
            == plan.end_ms,
        _ => false,
    }
}

/// Whether the action finishes with this error.
pub open spec fn finishes(a: EnrichmentAction, error: Option<Seq<char>>) -> bool {
    match a {
        EnrichmentAction::Finish { error: e } => opt_view(e) == error,
        _ => false,
    }
}

/// Whether the action takes the still of the middle frame.
pub open spec fn takes_screenshot(a: EnrichmentAction, plan: PlanView) -> bool {
    match a {
        EnrichmentAction::GenerateScreenshot { time_ms } => time_ms == plan.screenshot_ms,
        _ => false,
    }
}

/// Whether the stage and action are those that write the note's fields.
pub open spec fn updates_note(new: EnrichmentView, a: EnrichmentAction) -> bool {
    &&& new.stage == EnrichmentStage::UpdatingNote
    &&& match a {
        EnrichmentAction::UpdateNote { fields } => fields_view(fields@) == note_fields_spec(new.plan, new.picture),
        _ => false,
    }
}

/// What follows the stored audio: the AVIF clip when enabled, else the
/// screenshot.
pub open spec fn after_audio(old: EnrichmentView, new: EnrichmentView, a: EnrichmentAction) -> bool {
    if old.plan.avif_filename is Some {
        new == EnrichmentView { stage: EnrichmentStage::MakingAvif, ..old } && cuts(a, old.plan, true)
    } else {
        new == EnrichmentView { stage: EnrichmentStage::MakingScreenshot, ..old } && takes_screenshot(a, old.plan)
    }
}

/// Falling back to the screenshot.
pub open spec fn to_screenshot(old: EnrichmentView, new: EnrichmentView, a: EnrichmentAction) -> bool {
    new == EnrichmentView { stage: EnrichmentStage::MakingScreenshot, ..old } && takes_screenshot(a, old.plan)
}

/// Writing the fields with the picture `picture`.
pub open spec fn to_update(old: EnrichmentView, picture: Option<Seq<char>>, new: EnrichmentView, a: EnrichmentAction) -> bool {
    new == EnrichmentView { stage: EnrichmentStage::UpdatingNote, picture, ..old } && updates_note(new, a)
}

/// Ending with `error`.
pub open spec fn to_done(old: EnrichmentView, error: Option<Seq<char>>, new: EnrichmentView, a: EnrichmentAction) -> bool {
    new == EnrichmentView { stage: EnrichmentStage::Done, ..old } && finishes(a, error)
}

/// The next state and action of an enrichment after an event.
pub open spec fn enrichment_next(
    old: EnrichmentView,
    event: EnrichmentEvent,
    new: EnrichmentView,
    a: EnrichmentAction,
) -> bool {
    let plan = old.plan;
    match (old.stage, event) {
        (EnrichmentStage::Start, EnrichmentEvent::Begin) => new == EnrichmentView {
            stage: EnrichmentStage::ExtractingAudio,
            ..old
        } && cuts(a, plan, false),
        (EnrichmentStage::ExtractingAudio, EnrichmentEvent::Made) => new == EnrichmentView {
            stage: EnrichmentStage::StoringAudio,
            ..old
        } && stores(a, plan.audio_filename),
        (EnrichmentStage::ExtractingAudio, EnrichmentEvent::MakeFailed(e)) => to_done(
            old,
            Some("Audio extraction failed: "@ + e@),
            new,
            a,
        ),
        (EnrichmentStage::StoringAudio, EnrichmentEvent::Stored) => after_audio(old, new, a),
        (EnrichmentStage::StoringAudio, EnrichmentEvent::StoreFailed(e)) => to_done(
            old,
            Some("Failed to store audio: "@ + e@),
            new,
            a,
        ),
        (EnrichmentStage::MakingAvif, EnrichmentEvent::Made) => match plan.avif_filename {
            Some(f) => new == EnrichmentView { stage: EnrichmentStage::StoringAvif, ..old } && stores(a, f),
            None => new == old && a is Nothing,
        },
        (EnrichmentStage::MakingAvif, EnrichmentEvent::MakeFailed(_)) => to_screenshot(old, new, a),
        (EnrichmentStage::StoringAvif, EnrichmentEvent::Stored) => to_update(old, plan.avif_filename, new, a),
        (EnrichmentStage::StoringAvif, EnrichmentEvent::StoreFailed(_)) => to_screenshot(old, new, a),
        (EnrichmentStage::MakingScreenshot, EnrichmentEvent::Made) => new == EnrichmentView {
            stage: EnrichmentStage::StoringScreenshot,
            ..old
        } && stores(a, plan.screenshot_filename),
        (EnrichmentStage::MakingScreenshot, EnrichmentEvent::MakeFailed(_)) => to_update(old, None, new, a),
        (EnrichmentStage::StoringScreenshot, EnrichmentEvent::Stored) => to_update(
            old,
            Some(plan.screenshot_filename),
            new,
            a,
        ),
        (EnrichmentStage::StoringScreenshot, EnrichmentEvent::StoreFailed(_)) => to_update(old, None, new, a),
        (EnrichmentStage::UpdatingNote, EnrichmentEvent::NoteUpdated) => if plan.tags.len() > 0 {
            new == EnrichmentView { stage: EnrichmentStage::AddingTags, ..old } && match a {
                EnrichmentAction::AddTags { tags } => tags@ == plan.tags,
                _ => false,
            }
        } else {
            to_done(old, None, new, a)
        },
        (EnrichmentStage::UpdatingNote, EnrichmentEvent::NoteUpdateFailed(e)) => to_done(
            old,
            Some("Failed to update note: "@ + e@),
            new,
            a,
        ),
        (EnrichmentStage::AddingTags, EnrichmentEvent::TagsDone) => to_done(old, None, new, a),
        _ => new == old && a is Nothing,
    }
}

fn prefixed(prefix: &str, e: &String) -> (r: Option<String>)
    ensures
        opt_view(r) == Some(prefix@ + e@),
{
    let mut t: Vec<char> = Vec::new();
    append_str(&mut t, prefix);
    append_str(&mut t, e.as_str());
    Some(string_of(&t))
}

fn begin_update(state: &mut EnrichmentState, picture: Option<String>) -> (a: EnrichmentAction)
    ensures
        to_update(old(state)@, opt_view(picture), final(state)@, a),
{
    let fields = match &picture {
        Some(p) => note_fields(&state.plan, Some(p.as_str())),
        None => note_fields(&state.plan, None),
    };
    state.stage = EnrichmentStage::UpdatingNote;
    state.picture = picture;
    EnrichmentAction::UpdateNote { fields }
}

fn copy_opt(o: &Option<String>) -> (r: Option<String>)
    ensures
        opt_view(r) == opt_view(*o),
{
    match o {
        Some(s) => Some(owned(s.as_str())),
        None => None,
    }
}

/// One step of an enrichment (see [`enrichment_next`]).
pub fn enrichment_step(state: &mut EnrichmentState, event: EnrichmentEvent) -> (r: EnrichmentAction)
    ensures
        enrichment_next(old(state)@, event, final(state)@, r),
{
    match (state.stage, event) {
        (EnrichmentStage::Start, EnrichmentEvent::Begin) => {
            state.stage = EnrichmentStage::ExtractingAudio;
            EnrichmentAction::ExtractAudio { start_ms: state.plan.start_ms, end_ms: state.plan.end_ms }
        },
        (EnrichmentStage::ExtractingAudio, EnrichmentEvent::Made) => {
            state.stage = EnrichmentStage::StoringAudio;
            EnrichmentAction::StoreMedia { filename: owned(state.plan.audio_filename.as_str()) }
        },
        (EnrichmentStage::ExtractingAudio, EnrichmentEvent::MakeFailed(e)) => {
            state.stage = EnrichmentStage::Done;
            EnrichmentAction::Finish { error: prefixed("Audio extraction failed: ", &e) }
        },
        (EnrichmentStage::StoringAudio, EnrichmentEvent::Stored) => {
            if state.plan.avif_filename.is_some() {
                state.stage = EnrichmentStage::MakingAvif;
                EnrichmentAction::GenerateAvif { start_ms: state.plan.start_ms, end_ms: state.plan.end_ms }
            } else {
                state.stage = EnrichmentStage::MakingScreenshot;
                EnrichmentAction::GenerateScreenshot { time_ms: state.plan.screenshot_ms }
            }
        },
        (EnrichmentStage::StoringAudio, EnrichmentEvent::StoreFailed(e)) => {
            state.stage = EnrichmentStage::Done;
            EnrichmentAction::Finish { error: prefixed("Failed to store audio: ", &e) }
        },
        (EnrichmentStage::MakingAvif, EnrichmentEvent::Made) => {
            match &state.plan.avif_filename {
                Some(f) => {
                    let filename = owned(f.as_str());
                    state.stage = EnrichmentStage::StoringAvif;
                    EnrichmentAction::StoreMedia { filename }
                },
                None => EnrichmentAction::Nothing,
            }
        },
        (EnrichmentStage::MakingAvif, EnrichmentEvent::MakeFailed(_)) => {
            state.stage = EnrichmentStage::MakingScreenshot;
            EnrichmentAction::GenerateScreenshot { time_ms: state.plan.screenshot_ms }
        },
        (EnrichmentStage::StoringAvif, EnrichmentEvent::Stored) => {
            let picture = copy_opt(&state.plan.avif_filename);
            begin_update(state, picture)
        },
        (EnrichmentStage::StoringAvif, EnrichmentEvent::StoreFailed(_)) => {
            state.stage = EnrichmentStage::MakingScreenshot;
            EnrichmentAction::GenerateScreenshot { time_ms: state.plan.screenshot_ms }
        },
        (EnrichmentStage::MakingScreenshot, EnrichmentEvent::Made) => {
            state.stage = EnrichmentStage::StoringScreenshot;
            EnrichmentAction::StoreMedia { filename: owned(state.plan.screenshot_filename.as_str()) }
        },
        (EnrichmentStage::MakingScreenshot, EnrichmentEvent::MakeFailed(_)) => begin_update(state, None),
        (EnrichmentStage::StoringScreenshot, EnrichmentEvent::Stored) => {
            let picture = Some(owned(state.plan.screenshot_filename.as_str()));
            begin_update(state, picture)
        },
        (EnrichmentStage::StoringScreenshot, EnrichmentEvent::StoreFailed(_)) => begin_update(state, None),
        (EnrichmentStage::UpdatingNote, EnrichmentEvent::NoteUpdated) => {
            if state.plan.tags.as_str().is_empty() {
                state.stage = EnrichmentStage::Done;
                EnrichmentAction::Finish { error: None }
            } else {
                state.stage = EnrichmentStage::AddingTags;
                EnrichmentAction::AddTags { tags: owned(state.plan.tags.as_str()) }
            }
        },
        (EnrichmentStage::UpdatingNote, EnrichmentEvent::NoteUpdateFailed(e)) => {
            state.stage = EnrichmentStage::Done;
            EnrichmentAction::Finish { error: prefixed("Failed to update note: ", &e) }
        },
        (EnrichmentStage::AddingTags, EnrichmentEvent::TagsDone) => {
            state.stage = EnrichmentStage::Done;
            EnrichmentAction::Finish { error: None }
        },
        _ => EnrichmentAction::Nothing,
    }
}

// ---------------------------------------------------------------------------
// Laws
// ---------------------------------------------------------------------------

/// When the sentence audio cannot be stored, the enrichment stops with that
/// error: no picture is made and the note is not touched.
pub proof fn lemma_failed_audio_store_aborts(
    old: EnrichmentView,
    error: String,
    new: EnrichmentView,
    a: EnrichmentAction,
)
    requires
        old.stage == EnrichmentStage::StoringAudio,
        enrichment_next(old, EnrichmentEvent::StoreFailed(error), new, a),
    ensures
        new.stage == EnrichmentStage::Done,
        finishes(a, Some("Failed to store audio: "@ + error@)),
{
}

/// Once the audio is stored, the animated clip is tried first when it is
/// enabled; otherwise the still screenshot is taken.
pub proof fn lemma_avif_tried_first(old: EnrichmentView, new: EnrichmentView, a: EnrichmentAction)
    requires
        old.stage == EnrichmentStage::StoringAudio,
        enrichment_next(old, EnrichmentEvent::Stored, new, a),
    ensures
        old.plan.avif_filename is Some ==> a is GenerateAvif,
        old.plan.avif_filename is None ==> takes_screenshot(a, old.plan),
{
}

/// When no animated clip was stored (it could not be made or stored), the
/// still screenshot of the middle frame is the fallback.
pub proof fn lemma_screenshot_is_the_fallback(
    old: EnrichmentView,
    event: EnrichmentEvent,
    new: EnrichmentView,
    a: EnrichmentAction,
)
    requires
        (old.stage == EnrichmentStage::MakingAvif && event is MakeFailed) || (old.stage
            == EnrichmentStage::StoringAvif && event is StoreFailed),
        enrichment_next(old, event, new, a),
    ensures
        takes_screenshot(a, old.plan),
        new.picture is None || new.picture == old.picture,
{
}

/// Tags are only added after the note's fields were written, and the
/// fields are written with the picture that was stored, if any.
pub proof fn lemma_note_updated_before_tags(
    old: EnrichmentView,
    event: EnrichmentEvent,
    new: EnrichmentView,
    a: EnrichmentAction,
)
    requires
        enrichment_next(old, event, new, a),
    ensures
        a is AddTags ==> old.stage == EnrichmentStage::UpdatingNote && event is NoteUpdated,
        a is UpdateNote ==> updates_note(new, a),
{
}

} // verus!
