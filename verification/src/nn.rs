//! The neural core's bookkeeping: pipeline stages, the bounded log, the list of
//! requirements and the queue of requests to a human.
use vstd::prelude::*;
use std::collections::VecDeque;

verus! {

broadcast use vstd::string::group_string_axioms;

/// The kinds of internal AI that the core tracks.
#[derive(Debug, Clone, Copy, PartialEq, Eq, Structural)]
pub enum AiModality {
    Llm,
    Image,
    Talk,
    Listen,
    Sensor,
}

impl AiModality {
    pub open spec fn spec_label(&self) -> Seq<char> {
        match self {
            AiModality::Llm => "mini-LLM"@,
            AiModality::Image => "mini-CNN"@,
            AiModality::Talk => "mini-Talk"@,
            AiModality::Listen => "mini-Listen"@,
            AiModality::Sensor => "mini-Sensor"@,
        }
    }

    pub open spec fn spec_require_key(&self) -> Seq<char> {
        match self {
            AiModality::Llm => "llm_weights"@,
            AiModality::Image => "cnn_weights"@,
            AiModality::Talk => "tts_model"@,
            AiModality::Listen => "stt_model"@,
            AiModality::Sensor => "sensor_bridge"@,
        }
    }

    /// Display name of the modality.
    pub fn label(&self) -> (r: &'static str)
        ensures
            r@ == self.spec_label(),
    {
        match self {
            AiModality::Llm => "mini-LLM",
            AiModality::Image => "mini-CNN",
            AiModality::Talk => "mini-Talk",
            AiModality::Listen => "mini-Listen",
            AiModality::Sensor => "mini-Sensor",
        }
    }

    /// Key of the requirement whose resolution brings this AI online.
    pub fn require_key(&self) -> (r: &'static str)
        ensures
            r@ == self.spec_require_key(),
    {
        match self {
            AiModality::Llm => "llm_weights",
            AiModality::Image => "cnn_weights",
            AiModality::Talk => "tts_model",
            AiModality::Listen => "stt_model",
            AiModality::Sensor => "sensor_bridge",
        }
    }
}

/// The stages of the processing pipeline, cycled in declaration order.
#[derive(Debug, Clone, PartialEq, Eq, Structural)]
pub enum PipelineStage {
    Idle,
    Iot,
    Ecs,
    Llm,
    MetaProtocol,
    Output,
    Done,
}

impl PipelineStage {
    pub open spec fn spec_label(&self) -> Seq<char> {
        match self {
            PipelineStage::Idle => "IDLE"@,
            PipelineStage::Iot => "IOT"@,
            PipelineStage::Ecs => "ECS"@,
            PipelineStage::Llm => "LLM"@,
            PipelineStage::MetaProtocol => "META-PROTO"@,
            PipelineStage::Output => "OUTPUT"@,
            PipelineStage::Done => "DONE"@,
        }
    }

    /// The stage that follows this one; after `Done` the cycle starts again at `Idle`.
    pub open spec fn spec_next(&self) -> PipelineStage {
        match self {
            PipelineStage::Idle => PipelineStage::Iot,
            PipelineStage::Iot => PipelineStage::Ecs,
            PipelineStage::Ecs => PipelineStage::Llm,
            PipelineStage::Llm => PipelineStage::MetaProtocol,
            PipelineStage::MetaProtocol => PipelineStage::Output,
            PipelineStage::Output => PipelineStage::Done,
            PipelineStage::Done => PipelineStage::Idle,
        }
    }

    /// Display name of the stage.
    pub fn label(&self) -> (r: &'static str)
        ensures
            r@ == self.spec_label(),
    {
        match self {
            PipelineStage::Idle => "IDLE",
            PipelineStage::Iot => "IOT",
            PipelineStage::Ecs => "ECS",
            PipelineStage::Llm => "LLM",
            PipelineStage::MetaProtocol => "META-PROTO",
            PipelineStage::Output => "OUTPUT",
            PipelineStage::Done => "DONE",
        }
    }
}

/// Severity or kind of a log entry.
#[derive(Debug, Clone, PartialEq, Eq, Structural)]
pub enum LogLevel {
    Info,
    Warn,
    Error,
    AiResponse,
    Require,
}

impl LogLevel {
    pub open spec fn spec_tag(&self) -> Seq<char> {
        match self {
            LogLevel::Info => "[NFO]"@,
            LogLevel::Warn => "[WRN]"@,
            LogLevel::Error => "[ERR]"@,
            LogLevel::AiResponse => "[AI] "@,
            LogLevel::Require => "[REQ]"@,
        }
    }

    /// Five-character tag printed in front of a log line.
    pub fn tag(&self) -> (r: &'static str)
        ensures
            r@ == self.spec_tag(),
    {
        match self {
            LogLevel::Info => "[NFO]",
            LogLevel::Warn => "[WRN]",
            LogLevel::Error => "[ERR]",
            LogLevel::AiResponse => "[AI] ",
            LogLevel::Require => "[REQ]",
        }
    }
}

/// How the panel marks one of its six pipeline stages (IOT, ECS, LLM, META-PROTO, OUTPUT,
/// DONE) against the current stage.
#[derive(Debug, Clone, Copy, PartialEq, Eq, Structural)]
pub enum StageMark {
    Done,
    Active,
    Pending,
}

/// The position of a stage among the panel's six; the idle stage, which the panel does not
/// show, counts as the first.
pub open spec fn panel_position(s: PipelineStage) -> int {
    match s {
        PipelineStage::Idle => 0,
        PipelineStage::Iot => 0,
        PipelineStage::Ecs => 1,
        PipelineStage::Llm => 2,
        PipelineStage::MetaProtocol => 3,
        PipelineStage::Output => 4,
        PipelineStage::Done => 5,
    }
}

/// The mark of the panel's `i`-th stage: done before the current position, active at it,
/// pending after it.
pub open spec fn stage_mark(s: PipelineStage, i: int) -> StageMark {
    if i < panel_position(s) {
        StageMark::Done
    } else if i == panel_position(s) {
        StageMark::Active
    } else {
        StageMark::Pending
    }
}

impl PipelineStage {
    /// The marks of the panel's six stages (see `stage_mark`).
    pub fn panel_marks(&self) -> (m: Vec<StageMark>)
        ensures
            m@.len() == 6,
            forall|i: int| 0 <= i < 6 ==> #[trigger] m@[i] == stage_mark(*self, i),
    {
        let pos: usize = match self {
            PipelineStage::Idle => 0,
            PipelineStage::Iot => 0,
            PipelineStage::Ecs => 1,
            PipelineStage::Llm => 2,
            PipelineStage::MetaProtocol => 3,
            PipelineStage::Output => 4,
            PipelineStage::Done => 5,
        };
        let mut m: Vec<StageMark> = Vec::new();
        let mut i: usize = 0;
        while i < 6
            invariant
                i <= 6,
                pos as int == panel_position(*self),
                m@.len() == i,
                forall|j: int| 0 <= j < i ==> #[trigger] m@[j] == stage_mark(*self, j),
            decreases 6 - i,
        {
            if i < pos {
                m.push(StageMark::Done);
            } else if i == pos {
                m.push(StageMark::Active);
            } else {
                m.push(StageMark::Pending);
            }
            i = i + 1;
        }
        m
    }
}

/// One line of the core's log.
#[derive(Debug)]
pub struct LogEntry {
    pub level: LogLevel,
    pub source: String,
    pub message: String,
    pub frame: u64,
}

impl LogEntry {
    pub fn new(level: LogLevel, source: String, msg: String, frame: u64) -> (e: Self)
        ensures
            e == (LogEntry { level, source, message: msg, frame }),
    {
        LogEntry { level, source, message: msg, frame }
    }
}

/// Something the core needs from outside, such as a model file.
#[derive(Debug)]
pub struct RequireItem {
    pub key: String,
    pub label: String,
    pub resolved: bool,
    pub priority: u8,
}

impl RequireItem {
    /// A new, unresolved requirement.
    pub fn new(key: String, label: String, priority: u8) -> (r: Self)
        ensures
            r == (RequireItem { key, label, resolved: false, priority }),
    {
        RequireItem { key, label, resolved: false, priority }
    }
}

/// What a requirement says: key, label, whether it is resolved, and its priority.
pub open spec fn require_view(r: RequireItem) -> (Seq<char>, Seq<char>, bool, u8) {
    (r.key@, r.label@, r.resolved, r.priority)
}

/// Most entries the log keeps; the oldest goes first.
pub const LOG_CAPACITY: usize = 256;

/// What a log entry says: level, source, message and frame.
pub open spec fn entry_view(e: LogEntry) -> (LogLevel, Seq<char>, Seq<char>, u64) {
    (e.level, e.source@, e.message@, e.frame)
}

pub open spec fn log_view(logs: Seq<LogEntry>) -> Seq<(LogLevel, Seq<char>, Seq<char>, u64)> {
    logs.map_values(|e: LogEntry| entry_view(e))
}

pub open spec fn queue_view(q: Seq<String>) -> Seq<Seq<char>> {
    q.map_values(|s: String| s@)
}

/// Appending to a log that keeps at most `LOG_CAPACITY` entries.
pub open spec fn bounded_push<T>(s: Seq<T>, x: T) -> Seq<T> {
    if s.len() >= LOG_CAPACITY as int {
        s.drop_first().push(x)
    } else {
        s.push(x)
    }
}

/// Appending several entries one after the other to a bounded log.
pub open spec fn bounded_push_all<T>(s: Seq<T>, xs: Seq<T>) -> Seq<T>
    decreases xs.len(),
{
    if xs.len() == 0 {
        s
    } else {
        bounded_push(bounded_push_all(s, xs.drop_last()), xs.last())
    }
}

/// The message queued for a human when requirement `r` is still missing.
pub open spec fn request_msg(r: RequireItem) -> Seq<char> {
    "HUMAN INPUT NEEDED: "@ + r.label@
}

/// The messages a check of the requirements queues, in requirement order: one for each
/// unresolved requirement of priority 2 or more whose message is not already in `queue`.
pub open spec fn pending_requests(reqs: Seq<RequireItem>, queue: Seq<Seq<char>>) -> Seq<Seq<char>>
    decreases reqs.len(),
{
    if reqs.len() == 0 {
        Seq::empty()
    } else {
        let rest = pending_requests(reqs.drop_last(), queue);
        let r = reqs.last();
        if !r.resolved && r.priority >= 2 && !queue.contains(request_msg(r)) {
            rest.push(request_msg(r))
        } else {
            rest
        }
    }
}

/// The positions of the modalities that wait for requirement `key`, in order.
pub open spec fn waiting_for(mods: Seq<AiModality>, key: Seq<char>) -> Seq<int>
    decreases mods.len(),
{
    if mods.len() == 0 {
        Seq::empty()
    } else {
        let rest = waiting_for(mods.drop_last(), key);
        if mods.last().spec_require_key() == key {
            rest.push(mods.len() - 1)
        } else {
            rest
        }
    }
}

proof fn lemma_waiting_for_bound(mods: Seq<AiModality>, key: Seq<char>)
    ensures
        forall|j: int| 0 <= j < waiting_for(mods, key).len() ==> 0 <= #[trigger] waiting_for(mods, key)[j] < mods.len(),
    decreases mods.len(),
{
    if mods.len() > 0 {
        let rest = waiting_for(mods.drop_last(), key);
        lemma_waiting_for_bound(mods.drop_last(), key);
        assert forall|j: int| 0 <= j < waiting_for(mods, key).len() implies 0 <= #[trigger] waiting_for(
            mods,
            key,
        )[j] < mods.len() by {
            if j < rest.len() {
                assert(waiting_for(mods, key)[j] == rest[j]);
            }
        }
    }
}

/// The log lines announcing that the AIs at `idxs` came online for `key`.
pub open spec fn online_entries(mods: Seq<AiModality>, idxs: Seq<int>, key: Seq<char>, frame: u64) -> Seq<
    (LogLevel, Seq<char>, Seq<char>, u64),
> {
    idxs.map_values(|j: int| (LogLevel::AiResponse, mods[j].spec_label(), key + " online"@, frame))
}

/// The log lines asking a human for the unresolved requirements, in order.
pub open spec fn human_asks(reqs: Seq<RequireItem>, frame: u64) -> Seq<(LogLevel, Seq<char>, Seq<char>, u64)>
    decreases reqs.len(),
{
    if reqs.len() == 0 {
        Seq::empty()
    } else {
        let rest = human_asks(reqs.drop_last(), frame);
        let r = reqs.last();
        if !r.resolved {
            rest.push((LogLevel::Require, "Lilith"@, "[HUMAN] Please provide: "@ + r.label@, frame))
        } else {
            rest
        }
    }
}

/// Number of unresolved requirements.
pub open spec fn unresolved_in(reqs: Seq<RequireItem>) -> nat
    decreases reqs.len(),
{
    if reqs.len() == 0 {
        0
    } else {
        unresolved_in(reqs.drop_last()) + if reqs.last().resolved { 0nat } else { 1nat }
    }
}

/// The keys of the unresolved requirements joined by " | ".
pub open spec fn joined_keys(reqs: Seq<RequireItem>) -> Seq<char>
    decreases reqs.len(),
{
    if reqs.len() == 0 {
        Seq::empty()
    } else {
        let rest = joined_keys(reqs.drop_last());
        let r = reqs.last();
        if r.resolved {
            rest
        } else if unresolved_in(reqs.drop_last()) > 0 {
            rest + " | "@ + r.key@
        } else {
            rest + r.key@
        }
    }
}

/// The requirement line of the panel.
pub open spec fn require_line_of(reqs: Seq<RequireItem>) -> Seq<char> {
    if unresolved_in(reqs) > 0 {
        "REQUIRE: "@ + joined_keys(reqs)
    } else {
        "REQUIRE: (all resolved)"@
    }
}

/// The log line that announces a new pipeline stage.
pub open spec fn stage_entry(stage: PipelineStage, frame: u64) -> (LogLevel, Seq<char>, Seq<char>, u64) {
    (LogLevel::Info, "Pipeline"@, "→ "@ + stage.spec_label(), frame)
}

/// An internal AI as the core tracks it: its modality and whether it is online.
#[derive(Debug, Clone, Copy, PartialEq, Eq, Structural)]
pub struct AiStatus {
    pub modality: AiModality,
    pub online: bool,
}

/// The shape of a weight layer: its name and its rows and columns.
#[derive(Debug, Clone)]
pub struct LayerShape {
    pub label: String,
    pub rows: usize,
    pub cols: usize,
}

/// What a layer shape says: name, rows and columns.
pub open spec fn layer_view(l: LayerShape) -> (Seq<char>, usize, usize) {
    (l.label@, l.rows, l.cols)
}

/// The modalities of the internal AIs, in order.
pub open spec fn modalities_of(ais: Seq<AiStatus>) -> Seq<AiModality> {
    ais.map_values(|a: AiStatus| a.modality)
}

/// The position of the first AI of modality `m`, if any.
pub open spec fn first_of(ais: Seq<AiStatus>, m: AiModality) -> Option<int>
    decreases ais.len(),
{
    if ais.len() == 0 {
        None
    } else {
        match first_of(ais.drop_last(), m) {
            Some(i) => Some(i),
            None => if ais.last().modality == m {
                Some(ais.len() - 1)
            } else {
                None
            },
        }
    }
}

/// The AIs with the one at `at` (if any) online and the others as they were.
pub open spec fn with_online(ais: Seq<AiStatus>, at: Option<int>) -> Seq<AiStatus> {
    match at {
        Some(i) => ais.update(i, AiStatus { online: true, ..ais[i] }),
        None => ais,
    }
}

/// The bookkeeping half of the neural core: pipeline stage, internal AIs (modality and
/// online flag), bounded log, requirements, weight-layer shapes, frame counter and the queue
/// of requests addressed to a human.
pub struct NeuralCore {
    pub stage: PipelineStage,
    pub internals: Vec<AiStatus>,
    pub logs: VecDeque<LogEntry>,
    pub requires: Vec<RequireItem>,
    pub layers: Vec<LayerShape>,
    pub frame: u64,
    pub human_requests: VecDeque<String>,
}

/// How one frame changes the core: the frame counter goes up; every 120th frame the
/// pipeline advances and says so in the log; every 300th frame each missing requirement of
/// priority 2 or more that has no request queued yet gets one, queued and logged.
pub open spec fn tick_result(c0: NeuralCore, c1: NeuralCore) -> bool {
    let f = (c0.frame + 1) as u64;
    let advanced = f % 120 == 0;
    let stage1 = if advanced { c0.stage.spec_next() } else { c0.stage };
    let logs1 = if advanced {
        bounded_push(log_view(c0.logs@), stage_entry(stage1, f))
    } else {
        log_view(c0.logs@)
    };
    let msgs = if f % 300 == 0 {
        pending_requests(c0.requires@, queue_view(c0.human_requests@))
    } else {
        Seq::empty()
    };
    &&& c1.frame == f
    &&& c1.stage == stage1
    &&& c1.requires@ == c0.requires@
    &&& c1.internals@ == c0.internals@
    &&& c1.layers@ == c0.layers@
    &&& queue_view(c1.human_requests@) == queue_view(c0.human_requests@) + msgs
    &&& log_view(c1.logs@) == bounded_push_all(
        logs1,
        msgs.map_values(|m: Seq<char>| (LogLevel::Require, "Lilith"@, m, f)),
    )
}

impl NeuralCore {
    /// Appends an entry stamped with the current frame, dropping the oldest entry first when
    /// the log is full.
    pub fn log(&mut self, level: LogLevel, source: String, msg: String)
        ensures
            log_view(final(self).logs@) == bounded_push(
                log_view(old(self).logs@),
                (level, source@, msg@, old(self).frame),
            ),
            final(self).stage == old(self).stage,
            final(self).requires@ == old(self).requires@,
            final(self).frame == old(self).frame,
            final(self).human_requests@ == old(self).human_requests@,
            final(self).internals@ == old(self).internals@,
            final(self).layers@ == old(self).layers@,
    {
        let ghost before = self.logs@;
        if self.logs.len() >= LOG_CAPACITY {
            self.logs.pop_front();
            assert(self.logs@ == before.drop_first());
            assert(log_view(before.drop_first()) =~= log_view(before).drop_first());
        }
        let ghost mid = self.logs@;
        let e = LogEntry::new(level, source, msg, self.frame);
        self.logs.push_back(e);
        assert(log_view(self.logs@) =~= log_view(mid).push(entry_view(e)));
    }

    /// Moves the pipeline to its next stage and logs the new stage.
    pub fn advance_stage(&mut self)
        ensures
            final(self).stage == old(self).stage.spec_next(),
            log_view(final(self).logs@) == bounded_push(
                log_view(old(self).logs@),
                stage_entry(old(self).stage.spec_next(), old(self).frame),
            ),
            final(self).requires@ == old(self).requires@,
            final(self).frame == old(self).frame,
            final(self).human_requests@ == old(self).human_requests@,
            final(self).internals@ == old(self).internals@,
            final(self).layers@ == old(self).layers@,
    {
        self.stage = match self.stage {
            PipelineStage::Idle => PipelineStage::Iot,
            PipelineStage::Iot => PipelineStage::Ecs,
            PipelineStage::Ecs => PipelineStage::Llm,
            PipelineStage::Llm => PipelineStage::MetaProtocol,
            PipelineStage::MetaProtocol => PipelineStage::Output,
            PipelineStage::Output => PipelineStage::Done,
            PipelineStage::Done => PipelineStage::Idle,
        };
        let msg = String::from_str("→ ").concat(self.stage.label());
        self.log(LogLevel::Info, String::from_str("Pipeline"), msg);
    }

    /// A core at the idle stage, frame 0, with its four initial requirements and four
    /// opening log lines.
    pub fn new() -> (c: Self)
        ensures
            c.stage == PipelineStage::Idle,
            c.frame == 0,
            c.internals@ == seq![
                AiStatus { modality: AiModality::Image, online: true },
                AiStatus { modality: AiModality::Llm, online: false },
                AiStatus { modality: AiModality::Talk, online: false },
                AiStatus { modality: AiModality::Listen, online: false },
                AiStatus { modality: AiModality::Sensor, online: false },
            ],
            c.layers@.map_values(|l: LayerShape| layer_view(l)) == seq![
                ("perception"@, 64usize, 64usize),
                ("integration"@, 64usize, 128usize),
                ("output"@, 128usize, 32usize),
            ],
            c.human_requests@.len() == 0,
            c.requires@.map_values(|r: RequireItem| require_view(r)) == seq![
                ("llm_weights"@, "LLM学習済み重み"@, false, 2u8),
                ("tts_model"@, "TTSモデル"@, false, 1u8),
                ("stt_model"@, "STTモデル"@, false, 1u8),
                ("sensor_bridge"@, "IOTセンサーブリッジ"@, false, 0u8),
            ],
            log_view(c.logs@) == seq![
                (LogLevel::Info, "Lilith"@, "NeuralCore initialized"@, 0u64),
                (LogLevel::AiResponse, "mini-CNN"@, "online (MNIST ready)"@, 0u64),
                (LogLevel::Require, "System"@, "LLM weights not found"@, 0u64),
                (LogLevel::Require, "System"@, "TTS model not found"@, 0u64),
            ],
    {
        let mut reqs: Vec<RequireItem> = Vec::new();
        reqs.push(RequireItem::new(String::from_str("llm_weights"), String::from_str("LLM学習済み重み"), 2));
        reqs.push(RequireItem::new(String::from_str("tts_model"), String::from_str("TTSモデル"), 1));
        reqs.push(RequireItem::new(String::from_str("stt_model"), String::from_str("STTモデル"), 1));
        reqs.push(
            RequireItem::new(String::from_str("sensor_bridge"), String::from_str("IOTセンサーブリッジ"), 0),
        );
        let mut internals: Vec<AiStatus> = Vec::new();
        internals.push(AiStatus { modality: AiModality::Image, online: true });
        internals.push(AiStatus { modality: AiModality::Llm, online: false });
        internals.push(AiStatus { modality: AiModality::Talk, online: false });
        internals.push(AiStatus { modality: AiModality::Listen, online: false });
        internals.push(AiStatus { modality: AiModality::Sensor, online: false });
        let mut layers: Vec<LayerShape> = Vec::new();
        layers.push(LayerShape { label: String::from_str("perception"), rows: 64, cols: 64 });
        layers.push(LayerShape { label: String::from_str("integration"), rows: 64, cols: 128 });
        layers.push(LayerShape { label: String::from_str("output"), rows: 128, cols: 32 });
        let mut core = NeuralCore {
            stage: PipelineStage::Idle,
            internals,
            logs: VecDeque::with_capacity(LOG_CAPACITY),
            requires: reqs,
            layers,
            frame: 0,
            human_requests: VecDeque::new(),
        };
        core.log(LogLevel::Info, String::from_str("Lilith"), String::from_str("NeuralCore initialized"));
        core.log(LogLevel::AiResponse, String::from_str("mini-CNN"), String::from_str("online (MNIST ready)"));
        core.log(LogLevel::Require, String::from_str("System"), String::from_str("LLM weights not found"));
        core.log(LogLevel::Require, String::from_str("System"), String::from_str("TTS model not found"));
        assert(core.requires@.map_values(|r: RequireItem| require_view(r)) =~= seq![
            ("llm_weights"@, "LLM学習済み重み"@, false, 2u8),
            ("tts_model"@, "TTSモデル"@, false, 1u8),
            ("stt_model"@, "STTモデル"@, false, 1u8),
            ("sensor_bridge"@, "IOTセンサーブリッジ"@, false, 0u8),
        ]);
        assert(core.layers@.map_values(|l: LayerShape| layer_view(l)) =~= seq![
            ("perception"@, 64usize, 64usize),
            ("integration"@, 64usize, 128usize),
            ("output"@, 128usize, 32usize),
        ]);
        assert(log_view(core.logs@) =~= seq![
            (LogLevel::Info, "Lilith"@, "NeuralCore initialized"@, 0u64),
            (LogLevel::AiResponse, "mini-CNN"@, "online (MNIST ready)"@, 0u64),
            (LogLevel::Require, "System"@, "LLM weights not found"@, 0u64),
            (LogLevel::Require, "System"@, "TTS model not found"@, 0u64),
        ]);
        core
    }

    /// Marks every requirement with this key as resolved; nothing else changes.
    fn mark_resolved(&mut self, key: &str)
        ensures
            final(self).requires@.len() == old(self).requires@.len(),
            forall|i: int|
                0 <= i < old(self).requires@.len() ==> #[trigger] final(self).requires@[i] == if old(
                    self,
                ).requires@[i].key@ == key@ {
                    RequireItem { resolved: true, ..old(self).requires@[i] }
                } else {
                    old(self).requires@[i]
                },
            final(self).stage == old(self).stage,
            final(self).logs@ == old(self).logs@,
            final(self).frame == old(self).frame,
            final(self).human_requests@ == old(self).human_requests@,
            final(self).internals@ == old(self).internals@,
            final(self).layers@ == old(self).layers@,
    {
        let wanted = String::from_str(key);
        let ghost reqs0 = self.requires@;
        let ghost c0 = *self;
        let mut i: usize = 0;
        while i < self.requires.len()
            invariant
                wanted@ == key@,
                self.stage == c0.stage,
                self.logs@ == c0.logs@,
                self.frame == c0.frame,
                self.human_requests@ == c0.human_requests@,
                self.internals@ == c0.internals@,
                self.layers@ == c0.layers@,
                i <= self.requires@.len(),
                self.requires@.len() == reqs0.len(),
                forall|j: int|
                    0 <= j < reqs0.len() ==> #[trigger] self.requires@[j] == if j < i && reqs0[j].key@
                        == key@ {
                        RequireItem { resolved: true, ..reqs0[j] }
                    } else {
                        reqs0[j]
                    },
            decreases self.requires@.len() - i,
        {
            if self.requires[i].key == wanted {
                let mut item = RequireItem {
                    key: String::new(),
                    label: String::new(),
                    resolved: false,
                    priority: 0,
                };
                self.requires.set_and_swap(i, &mut item);
                item.resolved = true;
                self.requires.set_and_swap(i, &mut item);
            }
            i = i + 1;
        }
    }

    /// Resolves the requirements named `key`, logs "<key> online" under the name of each
    /// internal AI that waits for that key (in order), and brings the first of them online, as
    /// the AI found for each of those lines is the first one with that key. Returns the
    /// position of the AI brought online.
    pub fn resolve_require(&mut self, key: &str) -> (online: Option<usize>)
        ensures
            final(self).requires@.len() == old(self).requires@.len(),
            forall|i: int|
                0 <= i < old(self).requires@.len() ==> #[trigger] final(self).requires@[i] == if old(
                    self,
                ).requires@[i].key@ == key@ {
                    RequireItem { resolved: true, ..old(self).requires@[i] }
                } else {
                    old(self).requires@[i]
                },
            match online {
                Some(j) => waiting_for(modalities_of(old(self).internals@), key@).len() > 0
                    && j as int == waiting_for(modalities_of(old(self).internals@), key@)[0],
                None => waiting_for(modalities_of(old(self).internals@), key@).len() == 0,
            },
            final(self).internals@ == with_online(
                old(self).internals@,
                match online {
                    Some(j) => Some(j as int),
                    None => None,
                },
            ),
            log_view(final(self).logs@) == bounded_push_all(
                log_view(old(self).logs@),
                online_entries(
                    modalities_of(old(self).internals@),
                    waiting_for(modalities_of(old(self).internals@), key@),
                    key@,
                    old(self).frame,
                ),
            ),
            final(self).stage == old(self).stage,
            final(self).frame == old(self).frame,
            final(self).human_requests@ == old(self).human_requests@,
            final(self).layers@ == old(self).layers@,
    {
        self.mark_resolved(key);
        let ghost logs0 = log_view(self.logs@);
        let ghost f = self.frame;
        let ghost intl = self.internals@;
        let ghost mods = modalities_of(self.internals@);
        let ghost reqs1 = self.requires@;
        let ghost st = self.stage;
        let ghost hq = self.human_requests@;
        let ghost lay = self.layers@;
        let wanted = String::from_str(key);
        let mut first: Option<usize> = None;
        let mut i: usize = 0;
        while i < self.internals.len()
            invariant
                i <= intl.len(),
                mods == modalities_of(intl),
                self.internals@ == intl,
                wanted@ == key@,
                self.frame == f,
                self.stage == st,
                self.requires@ == reqs1,
                self.human_requests@ == hq,
                self.layers@ == lay,
                match first {
                    Some(j) => waiting_for(mods.take(i as int), key@).len() > 0 && j as int
                        == waiting_for(mods.take(i as int), key@)[0],
                    None => waiting_for(mods.take(i as int), key@).len() == 0,
                },
                log_view(self.logs@) == bounded_push_all(
                    logs0,
                    online_entries(mods, waiting_for(mods.take(i as int), key@), key@, f),
                ),
            decreases intl.len() - i,
        {
            let ghost before = waiting_for(mods.take(i as int), key@);
            assert(mods.take(i + 1).drop_last() =~= mods.take(i as int));
            assert(mods.take(i + 1).last() == mods[i as int]);
            proof { lemma_waiting_for_bound(mods.take(i as int), key@); }
            let m = self.internals[i].modality;
            let k = String::from_str(m.require_key());
            if k == wanted {
                if first.is_none() {
                    first = Some(i);
                }
                let msg = wanted.clone().concat(" online");
                let src = String::from_str(m.label());
                self.log(LogLevel::AiResponse, src, msg);
                assert(before.push(i as int)[0] == if before.len() > 0 { before[0] } else { i as int });
                assert(online_entries(mods, before.push(i as int), key@, f).drop_last() =~= online_entries(
                    mods,
                    before,
                    key@,
                    f,
                ));
            }
            i = i + 1;
        }
        assert(mods.take(intl.len() as int) =~= mods);
        match first {
            Some(j) => {
                proof { lemma_waiting_for_bound(mods, key@); }
                let m = self.internals[j].modality;
                self.internals.set(j, AiStatus { modality: m, online: true });
            },
            None => {},
        }
        first
    }

    /// Brings online the first internal AI of modality `m`, if there is one, and returns its
    /// position; every other AI stays as it was.
    pub fn mark_online(&mut self, m: AiModality) -> (at: Option<usize>)
        ensures
            match at {
                Some(j) => first_of(old(self).internals@, m) == Some(j as int),
                None => first_of(old(self).internals@, m) is None,
            },
            final(self).internals@ == with_online(old(self).internals@, first_of(old(self).internals@, m)),
            final(self).stage == old(self).stage,
            final(self).logs@ == old(self).logs@,
            final(self).requires@ == old(self).requires@,
            final(self).layers@ == old(self).layers@,
            final(self).frame == old(self).frame,
            final(self).human_requests@ == old(self).human_requests@,
    {
        let ghost c0 = *self;
        let mut i: usize = 0;
        while i < self.internals.len()
            invariant
                i <= self.internals@.len(),
                self.internals@ == c0.internals@,
                c0.internals@ == old(self).internals@,
                c0.stage == old(self).stage,
                c0.logs@ == old(self).logs@,
                c0.requires@ == old(self).requires@,
                c0.layers@ == old(self).layers@,
                c0.frame == old(self).frame,
                c0.human_requests@ == old(self).human_requests@,
                self.stage == c0.stage,
                self.logs@ == c0.logs@,
                self.requires@ == c0.requires@,
                self.layers@ == c0.layers@,
                self.frame == c0.frame,
                self.human_requests@ == c0.human_requests@,
                first_of(self.internals@.take(i as int), m) is None,
            decreases self.internals@.len() - i,
        {
            assert(self.internals@.take(i + 1).drop_last() =~= self.internals@.take(i as int));
            if self.internals[i].modality == m {
                proof {
                    assert(self.internals@.take(i + 1).last() == self.internals@[i as int]);
                    assert(first_of(self.internals@.take(i + 1), m) == Some(i as int));
                    lemma_first_of_prefix(self.internals@, i + 1, m, i as int);
                }
                let ghost before = self.internals@;
                self.internals.set(i, AiStatus { modality: m, online: true });
                assert(self.internals@ =~= before.update(i as int, AiStatus { online: true, ..before[i as int] }));
                return Some(i);
            }
            i = i + 1;
        }
        assert(self.internals@.take(self.internals@.len() as int) =~= self.internals@);
        None
    }

    /// Logs one message under "Lilith" asking a human for each unresolved requirement, in
    /// order.
    pub fn request_to_human(&mut self)
        ensures
            log_view(final(self).logs@) == bounded_push_all(
                log_view(old(self).logs@),
                human_asks(old(self).requires@, old(self).frame),
            ),
            final(self).requires@ == old(self).requires@,
            final(self).stage == old(self).stage,
            final(self).frame == old(self).frame,
            final(self).human_requests@ == old(self).human_requests@,
            final(self).internals@ == old(self).internals@,
            final(self).layers@ == old(self).layers@,
    {
        let ghost logs0 = log_view(self.logs@);
        let ghost reqs = self.requires@;
        let ghost f = self.frame;
        let ghost st = self.stage;
        let ghost hq = self.human_requests@;
        let ghost intl = self.internals@;
        let ghost lay = self.layers@;
        let mut i: usize = 0;
        while i < self.requires.len()
            invariant
                i <= reqs.len(),
                self.requires@ == reqs,
                self.frame == f,
                self.stage == st,
                self.human_requests@ == hq,
                self.internals@ == intl,
                self.layers@ == lay,
                log_view(self.logs@) == bounded_push_all(logs0, human_asks(reqs.take(i as int), f)),
            decreases reqs.len() - i,
        {
            assert(reqs.take(i + 1).drop_last() =~= reqs.take(i as int));
            assert(reqs.take(i + 1).last() == reqs[i as int]);
            if !self.requires[i].resolved {
                let msg = String::from_str("[HUMAN] Please provide: ").concat(
                    self.requires[i].label.as_str(),
                );
                self.log(LogLevel::Require, String::from_str("Lilith"), msg);
                assert(human_asks(reqs.take(i + 1), f).drop_last() =~= human_asks(reqs.take(i as int), f));
            }
            i = i + 1;
        }
        assert(reqs.take(reqs.len() as int) =~= reqs);
    }

    /// Number of requirements still unresolved.
    pub fn unresolved_count(&self) -> (n: usize)
        ensures
            n == unresolved_in(self.requires@),
    {
        let mut n: usize = 0;
        let mut i: usize = 0;
        while i < self.requires.len()
            invariant
                i <= self.requires@.len(),
                n == unresolved_in(self.requires@.take(i as int)),
                n <= i,
            decreases self.requires@.len() - i,
        {
            assert(self.requires@.take(i + 1).drop_last() =~= self.requires@.take(i as int));
            if !self.requires[i].resolved {
                n = n + 1;
            }
            i = i + 1;
        }
        assert(self.requires@.take(self.requires@.len() as int) =~= self.requires@);
        n
    }

    /// The newest `n` log entries (or all of them when there are fewer), newest first.
    pub fn recent_logs(&self, n: usize) -> (r: Vec<&LogEntry>)
        ensures
            r@.len() == if n < self.logs@.len() { n as int } else { self.logs@.len() as int },
            forall|i: int|
                0 <= i < r@.len() ==> *(#[trigger] r@[i]) == self.logs@[self.logs@.len() - 1 - i],
    {
        let len = self.logs.len();
        let mut r: Vec<&LogEntry> = Vec::new();
        let mut i: usize = 0;
        while i < n && i < len
            invariant
                len == self.logs@.len(),
                i <= len,
                i <= n,
                r@.len() == i,
                forall|j: int| 0 <= j < i ==> *(#[trigger] r@[j]) == self.logs@[len - 1 - j],
            decreases len - i,
        {
            r.push(&self.logs[len - 1 - i]);
            i = i + 1;
        }
        r
    }

    /// Whether the weights are saved on their own at this frame: two or more requirements are
    /// still unresolved and the frame is a multiple of 600.
    pub fn autosave_due(&self, frame: u64) -> (due: bool)
        ensures
            due == (unresolved_in(self.requires@) >= 2 && frame % 600 == 0),
    {
        self.unresolved_count() >= 2 && frame % 600 == 0
    }

    /// The requirement line of the panel: "REQUIRE: (all resolved)", or "REQUIRE: " and the
    /// keys of the unresolved requirements joined by " | ".
    pub fn require_line(&self) -> (line: String)
        ensures
            line@ == require_line_of(self.requires@),
    {
        let mut keys = String::new();
        let mut any = false;
        let mut i: usize = 0;
        while i < self.requires.len()
            invariant
                i <= self.requires@.len(),
                keys@ == joined_keys(self.requires@.take(i as int)),
                any == (unresolved_in(self.requires@.take(i as int)) > 0),
            decreases self.requires@.len() - i,
        {
            assert(self.requires@.take(i + 1).drop_last() =~= self.requires@.take(i as int));
            if !self.requires[i].resolved {
                if any {
                    keys.append(" | ");
                }
                keys.append(self.requires[i].key.as_str());
                any = true;
            }
            i = i + 1;
        }
        assert(self.requires@.take(self.requires@.len() as int) =~= self.requires@);
        if any {
            String::from_str("REQUIRE: ").concat(keys.as_str())
        } else {
            String::from_str("REQUIRE: (all resolved)")
        }
    }

    /// Whether a request with this text is already queued.
    fn request_queued(&self, msg: &String) -> (r: bool)
        ensures
            r == queue_view(self.human_requests@).contains(msg@),
    {
        let mut i: usize = 0;
        while i < self.human_requests.len()
            invariant
                i <= self.human_requests@.len(),
                forall|j: int| 0 <= j < i ==> self.human_requests@[j]@ != msg@,
            decreases self.human_requests@.len() - i,
        {
            if self.human_requests[i] == *msg {
                assert(queue_view(self.human_requests@)[i as int] == msg@);
                return true;
            }
            i = i + 1;
        }
        assert forall|j: int| 0 <= j < queue_view(self.human_requests@).len() implies queue_view(
            self.human_requests@,
        )[j] != msg@ by {
            assert(self.human_requests@[j]@ != msg@);
        }
        false
    }

    /// Advances the frame counter and runs the periodic work of that frame (see `tick_result`).
    pub fn tick(&mut self)
        requires
            old(self).frame < u64::MAX,
        ensures
            tick_result(*old(self), *final(self)),
    {
        self.frame = self.frame + 1;
        if self.frame % 120 == 0 {
            self.advance_stage();
        }
        let ghost logs1 = log_view(self.logs@);
        let ghost q0 = queue_view(self.human_requests@);
        let ghost f = self.frame;
        let ghost stage1 = self.stage;
        let ghost reqs0 = self.requires@;
        let ghost intl0 = self.internals@;
        let ghost lay0 = self.layers@;
        if self.frame % 300 == 0 {
            let mut msgs: Vec<String> = Vec::new();
            let mut i: usize = 0;
            while i < self.requires.len()
                invariant
                    i <= self.requires@.len(),
                    q0 == queue_view(self.human_requests@),
                    queue_view(msgs@) == pending_requests(self.requires@.take(i as int), q0),
                decreases self.requires@.len() - i,
            {
                assert(self.requires@.take(i + 1).drop_last() =~= self.requires@.take(i as int));
                let r = &self.requires[i];
                if !r.resolved && r.priority >= 2 {
                    let msg = String::from_str("HUMAN INPUT NEEDED: ").concat(r.label.as_str());
                    if !self.request_queued(&msg) {
                        let ghost before = queue_view(msgs@);
                        msgs.push(msg);
                        assert(queue_view(msgs@) =~= before.push(msg@));
                    }
                }
                i = i + 1;
            }
            assert(self.requires@.take(self.requires@.len() as int) =~= self.requires@);
            let ghost all = queue_view(msgs@);
            let ghost entries = all.map_values(|m: Seq<char>| (LogLevel::Require, "Lilith"@, m, f));
            let mut j: usize = 0;
            while j < msgs.len()
                invariant
                    j <= msgs@.len(),
                    all == queue_view(msgs@),
                    entries == all.map_values(|m: Seq<char>| (LogLevel::Require, "Lilith"@, m, f)),
                    self.frame == f,
                    self.stage == stage1,
                    self.requires@ == reqs0,
                    self.internals@ == intl0,
                    self.layers@ == lay0,
                    queue_view(self.human_requests@) == q0 + all.take(j as int),
                    log_view(self.logs@) == bounded_push_all(logs1, entries.take(j as int)),
                decreases msgs@.len() - j,
            {
                let msg = msgs[j].clone();
                let ghost qb = queue_view(self.human_requests@);
                self.human_requests.push_back(msg.clone());
                assert(queue_view(self.human_requests@) =~= qb.push(msg@));
                assert(all.take(j + 1) =~= all.take(j as int).push(msg@));
                self.log(LogLevel::Require, String::from_str("Lilith"), msg);
                assert(entries.take(j + 1).drop_last() =~= entries.take(j as int));
                j = j + 1;
            }
            assert(all.take(msgs@.len() as int) =~= all);
            assert(entries.take(msgs@.len() as int) =~= entries);
        } else {
            assert(queue_view(self.human_requests@) =~= q0 + Seq::<Seq<char>>::empty());
            assert(Seq::<Seq<char>>::empty().map_values(|m: Seq<char>| (LogLevel::Require, "Lilith"@, m, f))
                =~= Seq::empty());
        }
    }
}

proof fn lemma_first_of_prefix(ais: Seq<AiStatus>, n: int, m: AiModality, k: int)
    requires
        0 <= n <= ais.len(),
        first_of(ais.take(n), m) == Some(k),
    ensures
        first_of(ais, m) == Some(k),
    decreases ais.len() - n,
{
    if n < ais.len() {
        assert(ais.take(n + 1).drop_last() =~= ais.take(n));
        lemma_first_of_prefix(ais, n + 1, m, k);
    } else {
        assert(ais.take(n) =~= ais);
    }
}

/// Appending any entries to a log of at most `LOG_CAPACITY` entries keeps it within
/// `LOG_CAPACITY`.
pub proof fn law_push_all_bounded<T>(logs: Seq<T>, xs: Seq<T>)
    requires
        logs.len() <= LOG_CAPACITY as int,
    ensures
        bounded_push_all(logs, xs).len() <= LOG_CAPACITY as int,
    decreases xs.len(),
{
    if xs.len() > 0 {
        law_push_all_bounded(logs, xs.drop_last());
    }
}

/// A frame keeps a log of at most `LOG_CAPACITY` entries within `LOG_CAPACITY`, however many
/// lines the stage change and the requests add.
pub proof fn law_tick_log_bounded(c0: NeuralCore, c1: NeuralCore)
    requires
        tick_result(c0, c1),
        c0.logs@.len() <= LOG_CAPACITY as int,
    ensures
        c1.logs@.len() <= LOG_CAPACITY as int,
{
    let f = (c0.frame + 1) as u64;
    let l0 = log_view(c0.logs@);
    assert(l0.len() == c0.logs@.len());
    let logs1 = if f % 120 == 0 {
        bounded_push(l0, stage_entry(if f % 120 == 0 { c0.stage.spec_next() } else { c0.stage }, f))
    } else {
        l0
    };
    let msgs = if f % 300 == 0 {
        pending_requests(c0.requires@, queue_view(c0.human_requests@))
    } else {
        Seq::empty()
    };
    law_push_all_bounded(logs1, msgs.map_values(|m: Seq<char>| (LogLevel::Require, "Lilith"@, m, f)));
    assert(log_view(c1.logs@).len() == c1.logs@.len());
}

/// The pipeline is a cycle of seven stages: advancing seven times returns to the same stage,
/// and advancing one to six times does not.
pub proof fn law_stage_cycle(s: PipelineStage)
    ensures
        s.spec_next().spec_next().spec_next().spec_next().spec_next().spec_next().spec_next() == s,
        s.spec_next() != s,
        s.spec_next().spec_next() != s,
        s.spec_next().spec_next().spec_next() != s,
        s.spec_next().spec_next().spec_next().spec_next() != s,
        s.spec_next().spec_next().spec_next().spec_next().spec_next() != s,
        s.spec_next().spec_next().spec_next().spec_next().spec_next().spec_next() != s,
{
}

/// The pipeline stages in the order they are declared.
pub open spec fn declared_stages() -> Seq<PipelineStage> {
    seq![
        PipelineStage::Idle,
        PipelineStage::Iot,
        PipelineStage::Ecs,
        PipelineStage::Llm,
        PipelineStage::MetaProtocol,
        PipelineStage::Output,
        PipelineStage::Done,
    ]
}

/// The stages run in the order they are declared (idle, IoT, ECS, LLM, meta protocol, output,
/// done), and after the last one the cycle starts again at the first: each stage is followed by
/// the stage declared right after it.
pub proof fn law_stage_order(i: int)
    requires
        0 <= i < 7,
    ensures
        declared_stages()[i].spec_next() == declared_stages()[(i + 1) % 7],
{
}

/// The stages show as IDLE, IOT, ECS, LLM, META-PROTO, OUTPUT and DONE, in declaration order.
pub proof fn law_stage_labels()
    ensures
        declared_stages()[0].spec_label() == seq!['I', 'D', 'L', 'E'],
        declared_stages()[1].spec_label() == seq!['I', 'O', 'T'],
        declared_stages()[2].spec_label() == seq!['E', 'C', 'S'],
        declared_stages()[3].spec_label() == seq!['L', 'L', 'M'],
        declared_stages()[4].spec_label() == seq!['M', 'E', 'T', 'A', '-', 'P', 'R', 'O', 'T', 'O'],
        declared_stages()[5].spec_label() == seq!['O', 'U', 'T', 'P', 'U', 'T'],
        declared_stages()[6].spec_label() == seq!['D', 'O', 'N', 'E'],
{
    reveal_strlit("IDLE");
    reveal_strlit("IOT");
    reveal_strlit("ECS");
    reveal_strlit("LLM");
    reveal_strlit("META-PROTO");
    reveal_strlit("OUTPUT");
    reveal_strlit("DONE");
    assert("IDLE"@ =~= seq!['I', 'D', 'L', 'E']);
    assert("IOT"@ =~= seq!['I', 'O', 'T']);
    assert("ECS"@ =~= seq!['E', 'C', 'S']);
    assert("LLM"@ =~= seq!['L', 'L', 'M']);
    assert("META-PROTO"@ =~= seq!['M', 'E', 'T', 'A', '-', 'P', 'R', 'O', 'T', 'O']);
    assert("OUTPUT"@ =~= seq!['O', 'U', 'T', 'P', 'U', 'T']);
    assert("DONE"@ =~= seq!['D', 'O', 'N', 'E']);
}

/// The log never grows past its capacity, the new entry is always the last one, and the
/// entries before it are the newest of the earlier ones, in their order.
pub proof fn law_log_bounded<T>(logs: Seq<T>, e: T)
    requires
        logs.len() <= LOG_CAPACITY as int,
    ensures
        bounded_push(logs, e).len() <= LOG_CAPACITY as int,
        bounded_push(logs, e).last() == e,
        bounded_push(logs, e).drop_last() == logs.subrange(
            logs.len() - (bounded_push(logs, e).len() - 1),
            logs.len() as int,
        ),
{
    if logs.len() >= LOG_CAPACITY as int {
        assert(bounded_push(logs, e).drop_last() =~= logs.subrange(1, logs.len() as int));
    } else {
        assert(bounded_push(logs, e).drop_last() =~= logs.subrange(0, logs.len() as int));
    }
}

/// Whether requirement `r` calls for a human request.
pub open spec fn wants_request(r: RequireItem) -> bool {
    !r.resolved && r.priority >= 2
}

proof fn lemma_pending_covers(reqs: Seq<RequireItem>, q: Seq<Seq<char>>)
    ensures
        forall|i: int|
            0 <= i < reqs.len() && wants_request(#[trigger] reqs[i]) ==> (q + pending_requests(
                reqs,
                q,
            )).contains(request_msg(reqs[i])),
    decreases reqs.len(),
{
    if reqs.len() > 0 {
        let init = reqs.drop_last();
        lemma_pending_covers(init, q);
        let all = q + pending_requests(reqs, q);
        let prev = q + pending_requests(init, q);
        assert forall|i: int| 0 <= i < reqs.len() && wants_request(#[trigger] reqs[i]) implies all.contains(
            request_msg(reqs[i]),
        ) by {
            if i < reqs.len() - 1 {
                assert(init[i] == reqs[i]);
                assert(prev.contains(request_msg(init[i])));
                let k = choose|k: int| 0 <= k < prev.len() && prev[k] == request_msg(init[i]);
                assert(all[k] == prev[k]);
            } else {
                if q.contains(request_msg(reqs.last())) {
                    let k = choose|k: int| 0 <= k < q.len() && q[k] == request_msg(reqs.last());
                    assert(all[k] == q[k]);
                } else {
                    assert(all[all.len() - 1] == request_msg(reqs.last()));
                }
            }
        }
    }
}

proof fn lemma_pending_empty(reqs: Seq<RequireItem>, q: Seq<Seq<char>>)
    requires
        forall|i: int|
            0 <= i < reqs.len() && wants_request(#[trigger] reqs[i]) ==> q.contains(
                request_msg(reqs[i]),
            ),
    ensures
        pending_requests(reqs, q) == Seq::<Seq<char>>::empty(),
    decreases reqs.len(),
{
    if reqs.len() > 0 {
        let init = reqs.drop_last();
        assert forall|i: int| 0 <= i < init.len() && wants_request(#[trigger] init[i]) implies q.contains(
            request_msg(init[i]),
        ) by {
            assert(init[i] == reqs[i]);
        }
        lemma_pending_empty(init, q);
        assert(reqs[reqs.len() - 1] == reqs.last());
    }
}

/// A request is never queued twice: none of the messages a requirement check adds is queued
/// already, and a second check against the grown queue adds nothing.
pub proof fn law_requests_asked_once(reqs: Seq<RequireItem>, q: Seq<Seq<char>>)
    ensures
        forall|i: int|
            0 <= i < pending_requests(reqs, q).len() ==> !q.contains(
                #[trigger] pending_requests(reqs, q)[i],
            ),
        pending_requests(reqs, q + pending_requests(reqs, q)) == Seq::<Seq<char>>::empty(),
    decreases reqs.len(),
{
    if reqs.len() > 0 {
        law_requests_asked_once(reqs.drop_last(), q);
    }
    lemma_pending_covers(reqs, q);
    lemma_pending_empty(reqs, q + pending_requests(reqs, q));
}

} // verus!
