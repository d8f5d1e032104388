//! What a run is asked to do, and what it reports while it works.

use crate::commands::ArgResult;
use crate::commands::replace_in_inv::find_byte;
use crate::map_block::wire::bytes_eq;
use crate::spatial::area::Area;
use crate::spatial::vec3::MAP_LIMIT;
use crate::spatial::vec3::Vec3;
use crate::text::ascii_chars;
use crate::text::ascii_string;
use crate::text::decimal_digits;
use crate::text::lemma_decimal_digits_ascii;
use crate::text::push_digits;
use vstd::prelude::*;
use vstd::string::StringExecFns;
use vstd::utf8::encode_utf8;

verus! {

/// An argument that a command takes. The flag says whether the argument
/// must be given.
#[derive(Clone, Copy, Debug, PartialEq, Eq, Structural)]
pub enum ArgType {
    InputMapPath,
    Area(bool),
    Invert,
    Offset(bool),
    Node(bool),
    Nodes,
    NewNode,
    Object,
    Item,
    Items,
    NewItem,
    Delete,
    DeleteMeta,
    Key,
    Value,
    Param2,
}

/// What a run is asked to do.
#[derive(Clone, Debug)]
pub struct InstArgs {
    pub do_confirmation: bool,
    pub command: String,
    pub map_path: String,
    pub input_map_path: Option<String>,
    pub area: Option<Area>,
    pub invert: bool,
    pub offset: Option<Vec3>,
    pub node: Option<String>,
    pub nodes: Vec<String>,
    pub new_node: Option<String>,
    pub object: Option<String>,
    pub item: Option<String>,
    pub items: Option<Vec<String>>,
    pub new_item: Option<String>,
    pub delete: bool,
    pub delete_meta: bool,
    pub key: Option<String>,
    pub value: Option<String>,
    pub param2: Option<u8>,
}

/// What a run is doing: it says which progress is shown.
#[derive(Clone, Copy, Debug, PartialEq, Eq, Structural)]
pub enum InstState {
    Ignore,
    Querying,
    Editing,
}

/// The progress of a run.
#[derive(Clone, Copy, Debug, PartialEq, Eq, Structural)]
pub struct InstStatus {
    pub show_progress: bool,
    pub blocks_total: usize,
    pub blocks_done: usize,
    pub blocks_failed: usize,
    pub state: InstState,
}

impl InstStatus {
    /// The progress of a run that has not begun.
    pub fn new() -> (r: Self)
        ensures
            r == (InstStatus {
                show_progress: true,
                blocks_total: 0,
                blocks_done: 0,
                blocks_failed: 0,
                state: InstState::Ignore,
            }),
    {
        Self {
            show_progress: true,
            blocks_total: 0,
            blocks_done: 0,
            blocks_failed: 0,
            state: InstState::Ignore,
        }
    }
}

/// How grave a message is.
#[derive(Clone, Copy, Debug, PartialEq, Eq, Structural)]
pub enum LogType {
    Info,
    Warning,
    Error,
}

impl LogType {
    /// The word that is shown before a message of this kind.
    pub fn to_string(&self) -> (r: String)
        ensures
            r@ == match self {
                LogType::Info => "info"@,
                LogType::Warning => "warning"@,
                LogType::Error => "error"@,
            },
    {
        match self {
            LogType::Info => String::from_str("info"),
            LogType::Warning => String::from_str("warning"),
            LogType::Error => String::from_str("error"),
        }
    }
}

/// What the run tells whoever watches it.
#[derive(Clone, Debug)]
pub enum ServerEvent {
    Log(LogType, String),
    NewState(InstState),
    ConfirmRequest,
}

/// What whoever watches the run tells it.
#[derive(Clone, Copy, Debug, PartialEq, Eq, Structural)]
pub enum ClientEvent {
    ConfirmResponse(bool),
}

/// The run's side of the talk with whoever watches it: the progress, and
/// the events that are to be sent, oldest first.
#[derive(Debug)]
pub struct StatusServer {
    status: InstStatus,
    events: Vec<ServerEvent>,
}

/// `n + 1`, or `n` where that is the greatest number.
pub open spec fn bumped(n: usize) -> usize {
    if n < usize::MAX {
        (n + 1) as usize
    } else {
        n
    }
}

impl StatusServer {
    /// The progress.
    pub closed spec fn status(&self) -> InstStatus {
        self.status
    }

    /// The events that are to be sent, oldest first.
    pub closed spec fn events(&self) -> Seq<ServerEvent> {
        self.events@
    }

    /// A run that has not begun and has nothing to send.
    pub fn new() -> (r: Self)
        ensures
            r.status() == (InstStatus {
                show_progress: true,
                blocks_total: 0,
                blocks_done: 0,
                blocks_failed: 0,
                state: InstState::Ignore,
            }),
            r.events() == Seq::<ServerEvent>::empty(),
    {
        Self { status: InstStatus::new(), events: Vec::new() }
    }

    pub fn get_status(&self) -> (r: InstStatus)
        ensures
            r == self.status(),
    {
        self.status
    }

    /// Hands the events over for sending, and forgets them.
    pub fn take_events(&mut self) -> (r: Vec<ServerEvent>)
        ensures
            r@ == old(self).events(),
            final(self).events() == Seq::<ServerEvent>::empty(),
            final(self).status() == old(self).status(),
    {
        let mut events: Vec<ServerEvent> = Vec::new();
        core::mem::swap(&mut self.events, &mut events);
        events
    }

    /// Enters the state `new_state` and announces it, also where the run
    /// is in that state already.
    pub fn set_state(&mut self, new_state: InstState)
        ensures
            final(self).status() == (InstStatus { state: new_state, ..old(self).status() }),
            final(self).events() == old(self).events().push(ServerEvent::NewState(new_state)),
    {
        self.status.state = new_state;
        self.events.push(ServerEvent::NewState(new_state));
    }

    pub fn set_total(&mut self, total: usize)
        ensures
            final(self).status() == (InstStatus { blocks_total: total, ..old(self).status() }),
            final(self).events() == old(self).events(),
    {
        self.status.blocks_total = total;
    }

    /// Counts one more block as done.
    pub fn inc_done(&mut self)
        ensures
            final(self).status() == (InstStatus {
                blocks_done: bumped(old(self).status().blocks_done),
                ..old(self).status()
            }),
            final(self).events() == old(self).events(),
    {
        if self.status.blocks_done < usize::MAX {
            self.status.blocks_done = self.status.blocks_done + 1;
        }
    }

    /// Counts one more block as failed.
    pub fn inc_failed(&mut self)
        ensures
            final(self).status() == (InstStatus {
                blocks_failed: bumped(old(self).status().blocks_failed),
                ..old(self).status()
            }),
            final(self).events() == old(self).events(),
    {
        if self.status.blocks_failed < usize::MAX {
            self.status.blocks_failed = self.status.blocks_failed + 1;
        }
    }

    pub fn set_show_progress(&mut self, sp: bool)
        ensures
            final(self).status() == (InstStatus { show_progress: sp, ..old(self).status() }),
            final(self).events() == old(self).events(),
    {
        self.status.show_progress = sp;
    }

    pub fn begin_editing(&mut self)
        ensures
            final(self).status() == (InstStatus {
                state: InstState::Editing,
                ..old(self).status()
            }),
            final(self).events() == old(self).events().push(
                ServerEvent::NewState(InstState::Editing),
            ),
    {
        self.set_state(InstState::Editing);
    }

    pub fn end_editing(&mut self)
        ensures
            final(self).status() == (InstStatus { state: InstState::Ignore, ..old(self).status() }),
            final(self).events() == old(self).events().push(
                ServerEvent::NewState(InstState::Ignore),
            ),
    {
        self.set_state(InstState::Ignore);
    }

    /// Asks whoever watches for leave to go on.
    pub fn request_confirmation(&mut self)
        ensures
            final(self).status() == old(self).status(),
            final(self).events() == old(self).events().push(ServerEvent::ConfirmRequest),
    {
        self.events.push(ServerEvent::ConfirmRequest);
    }

    /// What the answer to a request for leave comes to: the answer that
    /// was given, or no where the watcher has gone without one.
    pub fn get_confirmation(&self, reply: Option<ClientEvent>) -> (r: bool)
        ensures
            r == match reply {
                Some(ClientEvent::ConfirmResponse(res)) => res,
                None => false,
            },
    {
        match reply {
            Some(ClientEvent::ConfirmResponse(res)) => res,
            None => false,
        }
    }

    fn log(&mut self, lt: LogType, msg: &str)
        ensures
            final(self).status() == old(self).status(),
            final(self).events().len() == old(self).events().len() + 1,
            final(self).events().subrange(0, old(self).events().len() as int) == old(
                self,
            ).events(),
            final(self).events().last() matches ServerEvent::Log(kind, text) && kind == lt && text@
                == msg@,
    {
        let ghost before = self.events@;
        self.events.push(ServerEvent::Log(lt, String::from_str(msg)));
        assert(self.events@.subrange(0, before.len() as int) =~= before);
    }

    pub fn log_info(&mut self, msg: &str)
        ensures
            final(self).status() == old(self).status(),
            final(self).events().len() == old(self).events().len() + 1,
            final(self).events().subrange(0, old(self).events().len() as int) == old(
                self,
            ).events(),
            final(self).events().last() matches ServerEvent::Log(kind, text) && kind
                == LogType::Info && text@ == msg@,
    {
        self.log(LogType::Info, msg);
    }

    pub fn log_warning(&mut self, msg: &str)
        ensures
            final(self).status() == old(self).status(),
            final(self).events().len() == old(self).events().len() + 1,
            final(self).events().subrange(0, old(self).events().len() as int) == old(
                self,
            ).events(),
            final(self).events().last() matches ServerEvent::Log(kind, text) && kind
                == LogType::Warning && text@ == msg@,
    {
        self.log(LogType::Warning, msg);
    }

    pub fn log_error(&mut self, msg: &str)
        ensures
            final(self).status() == old(self).status(),
            final(self).events().len() == old(self).events().len() + 1,
            final(self).events().subrange(0, old(self).events().len() as int) == old(
                self,
            ).events(),
            final(self).events().last() matches ServerEvent::Log(kind, text) && kind
                == LogType::Error && text@ == msg@,
    {
        self.log(LogType::Error, msg);
    }
}

/// The watcher's side of the talk with a run: the progress as it was last
/// seen, and the answers that are to be sent.
#[derive(Debug)]
pub struct StatusClient {
    status: InstStatus,
    received: Vec<ServerEvent>,
    replies: Vec<ClientEvent>,
}

impl StatusClient {
    /// The progress as it was last seen.
    pub closed spec fn status(&self) -> InstStatus {
        self.status
    }

    /// The events that have come and were not looked at yet, oldest first.
    pub closed spec fn pending(&self) -> Seq<ServerEvent> {
        self.received@
    }

    /// The answers that are to be sent, oldest first.
    pub closed spec fn replies(&self) -> Seq<ClientEvent> {
        self.replies@
    }

    pub fn get_status(&self) -> (r: InstStatus)
        ensures
            r == self.status(),
    {
        self.status
    }

    /// Takes in the progress and the events that the run has sent.
    pub fn deliver(&mut self, status: InstStatus, events: Vec<ServerEvent>)
        ensures
            final(self).status() == status,
            final(self).pending() == old(self).pending() + events@,
            final(self).replies() == old(self).replies(),
    {
        self.status = status;
        let mut events = events;
        self.received.append(&mut events);
    }

    /// The events that have come, oldest first.
    pub fn receiver(&self) -> (r: &Vec<ServerEvent>)
        ensures
            r@ == self.pending(),
    {
        &self.received
    }

    /// Answers a request for leave.
    pub fn confirm(&mut self, choice: bool)
        ensures
            final(self).status() == old(self).status(),
            final(self).pending() == old(self).pending(),
            final(self).replies() == old(self).replies().push(
                ClientEvent::ConfirmResponse(choice),
            ),
    {
        self.replies.push(ClientEvent::ConfirmResponse(choice));
    }
}

/// The two sides of the talk between a run and its watcher, at the start:
/// both see a run that has not begun, and neither has anything to send.
pub fn status_link() -> (r: (StatusServer, StatusClient))
    ensures
        r.0.status() == (InstStatus {
            show_progress: true,
            blocks_total: 0,
            blocks_done: 0,
            blocks_failed: 0,
            state: InstState::Ignore,
        }),
        r.1.status() == r.0.status(),
        r.0.events() == Seq::<ServerEvent>::empty(),
        r.1.pending() == Seq::<ServerEvent>::empty(),
        r.1.replies() == Seq::<ClientEvent>::empty(),
{
    (
        StatusServer::new(),
        StatusClient { status: InstStatus::new(), received: Vec::new(), replies: Vec::new() },
    )
}

/// Whether a byte may stand in the name of a mod: a lower-case letter, a
/// digit or an underscore.
pub open spec fn mod_byte(b: u8) -> bool {
    (97 <= b <= 122) || (48 <= b <= 57) || b == 95
}

/// Whether a byte may stand in the name of an item within its mod: a
/// letter, a digit or an underscore.
pub open spec fn item_byte(b: u8) -> bool {
    (97 <= b <= 122) || (65 <= b <= 90) || (48 <= b <= 57) || b == 95
}

/// The name `air`.
pub open spec fn air_name() -> Seq<u8> {
    seq![97u8, 105u8, 114u8]
}

/// The name `ignore`.
pub open spec fn ignore_name() -> Seq<u8> {
    seq![105u8, 103u8, 110u8, 111u8, 114u8, 101u8]
}

/// Whether `name` is the name of a node, an item or an object: `air`,
/// `ignore`, or the name of a mod, a colon, and a name within the mod.
pub open spec fn valid_name(name: Seq<u8>) -> bool {
    let delim = find_byte(name, 58u8, 0);
    ||| name == air_name()
    ||| name == ignore_name()
    ||| {
        &&& delim < name.len()
        &&& forall|i: int| 0 <= i < delim ==> mod_byte(name[i])
        &&& forall|i: int| delim < i < name.len() ==> item_byte(name[i])
    }
}

/// Whether `name` is the name of a node, an item or an object.
pub fn is_valid_name(name: &str) -> (r: bool)
    ensures
        r == valid_name(encode_utf8(name@)),
{
    let bytes = name.as_bytes();
    let air = vec![97u8, 105u8, 114u8];
    let ignore = vec![105u8, 103u8, 110u8, 111u8, 114u8, 101u8];
    assert(air@ =~= air_name());
    assert(ignore@ =~= ignore_name());
    if bytes_eq(bytes, air.as_slice()) || bytes_eq(bytes, ignore.as_slice()) {
        return true;
    }
    let mut delim: usize = 0;
    while delim < bytes.len() && bytes[delim] != 58
        invariant
            delim <= bytes@.len(),
            find_byte(bytes@, 58u8, 0) == find_byte(bytes@, 58u8, delim as int),
            forall|i: int| 0 <= i < delim ==> bytes@[i] != 58u8,
        decreases bytes@.len() - delim,
    {
        delim = delim + 1;
    }
    if delim >= bytes.len() {
        return false;
    }
    assert(delim == find_byte(bytes@, 58u8, 0));
    let mut i: usize = 0;
    while i < delim
        invariant
            i <= delim < bytes@.len(),
            bytes@ == encode_utf8(name@),
            bytes@ != air_name(),
            bytes@ != ignore_name(),
            delim == find_byte(bytes@, 58u8, 0),
            forall|j: int| 0 <= j < i ==> mod_byte(bytes@[j]),
        decreases delim - i,
    {
        let b = bytes[i];
        if !((97 <= b && b <= 122) || (48 <= b && b <= 57) || b == 95) {
            return false;
        }
        i = i + 1;
    }
    let mut i: usize = delim + 1;
    while i < bytes.len()
        invariant
            delim < i <= bytes@.len(),
            bytes@ == encode_utf8(name@),
            bytes@ != air_name(),
            bytes@ != ignore_name(),
            delim == find_byte(bytes@, 58u8, 0),
            forall|j: int| 0 <= j < delim ==> mod_byte(bytes@[j]),
            forall|j: int| delim < j < i ==> item_byte(bytes@[j]),
        decreases bytes@.len() - i,
    {
        let b = bytes[i];
        if !((97 <= b && b <= 122) || (65 <= b && b <= 90) || (48 <= b && b <= 57) || b == 95) {
            return false;
        }
        i = i + 1;
    }
    true
}

/// Whether a text, where one is given, is a valid name.
pub open spec fn valid_name_opt(name: Option<String>) -> bool {
    name matches Some(n) ==> valid_name(encode_utf8(n@))
}

/// Whether each text is a valid name.
pub open spec fn valid_names(names: Seq<String>) -> bool {
    forall|i: int| 0 <= i < names.len() ==> valid_name(encode_utf8(#[trigger] names[i]@))
}

/// Whether an offset reaches further than twice the map's limit along an
/// axis.
pub open spec fn offset_huge(offset: Vec3) -> bool {
    ||| offset.x < -2 * MAP_LIMIT || offset.x > 2 * MAP_LIMIT
    ||| offset.y < -2 * MAP_LIMIT || offset.y > 2 * MAP_LIMIT
    ||| offset.z < -2 * MAP_LIMIT || offset.z > 2 * MAP_LIMIT
}

/// What is wrong with the arguments of a run, if anything; of several
/// faults the first in this order.
pub enum ArgFault {
    /// The selection is inverted, but no area is given.
    InvertWithoutArea,
    /// A corner of the area lies outside the map.
    CornerOutside(Vec3),
    /// The offset is larger than twice the map's limit.
    OffsetTooLarge,
    /// A name of a node is no valid name.
    BadNodeName,
    /// The name of the object is no valid name.
    BadObjectName,
    /// A name of an item is no valid name.
    BadItemName,
}

/// What is wrong with the arguments `args`, if anything.
pub open spec fn args_fault(args: InstArgs) -> Option<ArgFault> {
    if args.area is None && args.invert {
        Some(ArgFault::InvertWithoutArea)
    } else if args.area is Some && !args.area->0.min.is_valid_node_pos() {
        Some(ArgFault::CornerOutside(args.area->0.min))
    } else if args.area is Some && !args.area->0.max.is_valid_node_pos() {
        Some(ArgFault::CornerOutside(args.area->0.max))
    } else if args.offset matches Some(o) && offset_huge(o) {
        Some(ArgFault::OffsetTooLarge)
    } else if !valid_name_opt(args.node) || !valid_names(args.nodes@) || !valid_name_opt(
        args.new_node,
    ) {
        Some(ArgFault::BadNodeName)
    } else if !valid_name_opt(args.object) {
        Some(ArgFault::BadObjectName)
    } else if !valid_name_opt(args.item) || (args.items matches Some(items) && !valid_names(items@))
        || !valid_name_opt(args.new_item) {
        Some(ArgFault::BadItemName)
    } else {
        None
    }
}

fn name_ok(name: &Option<String>) -> (r: bool)
    ensures
        r == valid_name_opt(*name),
{
    match name {
        Some(n) => is_valid_name(n.as_str()),
        None => true,
    }
}

fn names_ok(names: &Vec<String>) -> (r: bool)
    ensures
        r == valid_names(names@),
{
    let mut i: usize = 0;
    while i < names.len()
        invariant
            i <= names@.len(),
            forall|j: int| 0 <= j < i ==> valid_name(encode_utf8(#[trigger] names@[j]@)),
        decreases names@.len() - i,
    {
        if !is_valid_name(names[i].as_str()) {
            return false;
        }
        i = i + 1;
    }
    true
}

fn is_huge(offset: Vec3) -> (r: bool)
    ensures
        r == offset_huge(offset),
{
    offset.x < -2 * MAP_LIMIT || offset.x > 2 * MAP_LIMIT || offset.y < -2 * MAP_LIMIT || offset.y
        > 2 * MAP_LIMIT || offset.z < -2 * MAP_LIMIT || offset.z > 2 * MAP_LIMIT
}

/// Checks what holds of the arguments of every command: a selection is
/// only inverted where there is an area, the area lies within the map,
/// the offset is no larger than twice the map's limit, and every name is
/// a valid name. Returns the first fault.
pub fn verify_args(args: &InstArgs) -> (r: Option<ArgFault>)
    ensures
        r == args_fault(*args),
{
    if args.area.is_none() && args.invert {
        return Some(ArgFault::InvertWithoutArea);
    }
    if let Some(a) = args.area {
        if !a.min.is_valid_node_pos() {
            return Some(ArgFault::CornerOutside(a.min));
        }
        if !a.max.is_valid_node_pos() {
            return Some(ArgFault::CornerOutside(a.max));
        }
    }
    if let Some(offset) = args.offset {
        if is_huge(offset) {
            return Some(ArgFault::OffsetTooLarge);
        }
    }
    if !name_ok(&args.node) || !names_ok(&args.nodes) || !name_ok(&args.new_node) {
        return Some(ArgFault::BadNodeName);
    }
    if !name_ok(&args.object) {
        return Some(ArgFault::BadObjectName);
    }
    let items_fine: bool = match &args.items {
        Some(items) => names_ok(items),
        None => true,
    };
    if !name_ok(&args.item) || !items_fine || !name_ok(&args.new_item) {
        return Some(ArgFault::BadItemName);
    }
    None
}

impl ArgFault {
    /// The fault in words.
    pub fn to_string(&self) -> (r: String)
        ensures
            match self {
                ArgFault::InvertWithoutArea => r@ == "Cannot invert without a specified area."@,
                ArgFault::CornerOutside(pos) => r@ == "Area corner is outside map bounds: "@
                    + crate::text::ascii_chars(pos.text()) + "."@,
                ArgFault::OffsetTooLarge => r@
                    == "Offset cannot be larger than 62000 nodes in any direction."@,
                ArgFault::BadNodeName => r@ == "Invalid node name."@,
                ArgFault::BadObjectName => r@ == "Invalid object name."@,
                ArgFault::BadItemName => r@ == "Invalid item name."@,
            },
    {
        match self {
            ArgFault::InvertWithoutArea => String::from_str(
                "Cannot invert without a specified area.",
            ),
            ArgFault::CornerOutside(pos) => {
                let text = pos.to_string();
                String::from_str("Area corner is outside map bounds: ").concat(
                    text.as_str(),
                ).concat(".")
            },
            ArgFault::OffsetTooLarge => String::from_str(
                "Offset cannot be larger than 62000 nodes in any direction.",
            ),
            ArgFault::BadNodeName => String::from_str("Invalid node name."),
            ArgFault::BadObjectName => String::from_str("Invalid object name."),
            ArgFault::BadItemName => String::from_str("Invalid item name."),
        }
    }
}

/// The warning that a run gives before it asks for leave.
pub open spec fn backup_warning() -> Seq<char> {
    "This tool can permanently damage your Minetest world.\nAlways EXIT Minetest and BACK UP the map database before use."@
}

/// What a run says once its maps are open: the warning to back up the
/// map where the run asks for leave, then the warning of the command if
/// it has one.
pub open spec fn opening_texts(do_confirmation: bool, cmd_warning: Option<String>) -> Seq<Seq<char>> {
    (if do_confirmation {
        seq![backup_warning()]
    } else {
        Seq::<Seq<char>>::empty()
    }) + (match cmd_warning {
        Some(w) => seq![w@],
        None => Seq::<Seq<char>>::empty(),
    })
}

/// Whether `event` is a message of the kind `kind` with the text `text`.
pub open spec fn is_log(event: ServerEvent, kind: LogType, text: Seq<char>) -> bool {
    event matches ServerEvent::Log(k, t) && k == kind && t@ == text
}

/// Whether the events from the index `from` on are messages of the kind
/// `kind` with the texts `texts`, in their order.
pub open spec fn logged(events: Seq<ServerEvent>, from: int, kind: LogType, texts: Seq<Seq<char>>) -> bool {
    &&& events.len() == from + texts.len()
    &&& forall|i: int| 0 <= i < texts.len() ==> is_log(#[trigger] events[from + i], kind, texts[i])
}

impl StatusServer {
    /// Gives the warnings that are due before a command works, and asks
    /// for leave to go on where the run is to ask. Returns whether an
    /// answer is to be waited for.
    pub fn open_run(&mut self, do_confirmation: bool, cmd_warning: &Option<String>) -> (ask: bool)
        ensures
            ask == do_confirmation,
            final(self).status() == old(self).status(),
            final(self).events().subrange(0, old(self).events().len() as int) == old(
                self,
            ).events(),
            logged(
                if ask {
                    final(self).events().drop_last()
                } else {
                    final(self).events()
                },
                old(self).events().len() as int,
                LogType::Warning,
                opening_texts(do_confirmation, *cmd_warning),
            ),
            ask ==> final(self).events().last() == ServerEvent::ConfirmRequest,
    {
        let ghost before = self.events@;
        if do_confirmation {
            self.log_warning(
                "This tool can permanently damage your Minetest world.\nAlways EXIT Minetest and BACK UP the map database before use.",
            );
        }
        let ghost mid = self.events@;
        if let Some(w) = cmd_warning {
            self.log_warning(w.as_str());
        }
        let ghost logs = self.events@;
        proof {
            assert(logs.subrange(0, before.len() as int) =~= mid.subrange(0, before.len() as int));
            assert(logged(
                logs,
                before.len() as int,
                LogType::Warning,
                opening_texts(do_confirmation, *cmd_warning),
            )) by {
                let texts = opening_texts(do_confirmation, *cmd_warning);
                assert forall|i: int| 0 <= i < texts.len() implies is_log(
                    #[trigger] logs[before.len() + i],
                    LogType::Warning,
                    texts[i],
                ) by {
                    if before.len() + i < mid.len() {
                        assert(logs.subrange(0, mid.len() as int)[before.len() + i] == mid[before.len()
                            + i]);
                        assert(mid.last() == mid[before.len() + i]);
                    } else {
                        assert(logs.last() == logs[before.len() + i]);
                    }
                }
            }
        }
        if do_confirmation {
            self.request_confirmation();
            proof {
                assert(self.events@.drop_last() =~= logs);
                assert(self.events@.subrange(0, before.len() as int) =~= logs.subrange(
                    0,
                    before.len() as int,
                ));
            }
        }
        do_confirmation
    }

    /// The message that tells of blocks that were passed over.
    pub open spec fn skipped_text(fails: usize) -> Seq<char> {
        "Skipped "@ + ascii_chars(decimal_digits(fails as nat)) + " invalid/unsupported mapblocks."@
    }

    /// What a run says when its command has worked: how many blocks were
    /// passed over, if any were, and that the changes are being committed,
    /// if any are open.
    pub open spec fn closing_texts(fails: usize, in_transaction: bool) -> Seq<Seq<char>> {
        (if fails > 0 {
            seq![Self::skipped_text(fails)]
        } else {
            Seq::<Seq<char>>::empty()
        }) + (if in_transaction {
            seq!["Committing..."@]
        } else {
            Seq::<Seq<char>>::empty()
        })
    }

    /// Tells how the command went, before the changes are committed.
    /// Returns whether there are changes to commit.
    pub fn close_run(&mut self, in_transaction: bool) -> (commit: bool)
        ensures
            commit == in_transaction,
            final(self).status() == old(self).status(),
            final(self).events().subrange(0, old(self).events().len() as int) == old(
                self,
            ).events(),
            logged(
                final(self).events(),
                old(self).events().len() as int,
                LogType::Info,
                Self::closing_texts(old(self).status().blocks_failed, in_transaction),
            ),
    {
        let ghost before = self.events@;
        let fails = self.status.blocks_failed;
        if fails > 0 {
            let mut digits: Vec<u8> = Vec::new();
            push_digits(&mut digits, fails as u64);
            proof {
                lemma_decimal_digits_ascii(fails as nat);
                assert(digits@ =~= decimal_digits(fails as nat));
            }
            let number = ascii_string(&digits);
            let text = String::from_str("Skipped ").concat(number.as_str()).concat(
                " invalid/unsupported mapblocks.",
            );
            self.log_info(text.as_str());
        }
        let ghost mid = self.events@;
        if in_transaction {
            self.log_info("Committing...");
        }
        proof {
            let logs = self.events@;
            let texts = Self::closing_texts(fails, in_transaction);
            assert(logs.subrange(0, before.len() as int) =~= mid.subrange(0, before.len() as int));
            assert forall|i: int| 0 <= i < texts.len() implies is_log(
                #[trigger] logs[before.len() + i],
                LogType::Info,
                texts[i],
            ) by {
                if before.len() + i < mid.len() {
                    assert(logs.subrange(0, mid.len() as int)[before.len() + i] == mid[before.len()
                        + i]);
                    assert(mid.last() == mid[before.len() + i]);
                } else {
                    assert(logs.last() == logs[before.len() + i]);
                }
            }
        }
        in_transaction
    }

    /// Tells that the run is done.
    pub fn end_run(&mut self)
        ensures
            final(self).status() == old(self).status(),
            final(self).events().subrange(0, old(self).events().len() as int) == old(
                self,
            ).events(),
            logged(
                final(self).events(),
                old(self).events().len() as int,
                LogType::Info,
                seq!["Done."@],
            ),
    {
        let ghost before = self.events@;
        self.log_info("Done.");
        proof {
            assert(self.events@.last() == self.events@[before.len() as int]);
        }
    }
}

} // verus!
