//! The selection engine's decisions: which conversions are outstanding, how
//! a TARGETS reply is read, which target is fetched, and what is written in
//! answer to a SelectionRequest. The caller performs the X11 requests that
//! these functions describe and hands back the replies.
use vstd::prelude::*;
use vstd::slice::slice_to_vec;
use vstd::std_specs::hash::group_hash_axioms;
use vstd::utf8::{decode_utf8, valid_utf8};

use std::collections::HashMap;

use crate::atoms::{caches, has_name, AtomCache};
use crate::property_names::{lemma_names_fit, property_name, property_prefix, with_number};
use crate::db::{added_index, after_add, text_bytes, Clip, ClipContents, ClipView, Database, Source};

verus! {

broadcast use group_hash_axioms;

/// The predefined atom `ATOM`, the type of a list of atoms.
pub const XA_ATOM: u32 = 4;

/// The atoms of the names the protocol uses, interned at startup.
#[derive(Clone, Copy, Debug, PartialEq, Eq, Structural)]
pub struct KnownAtoms {
    pub primary: u32,
    pub secondary: u32,
    pub clipboard: u32,
    pub targets: u32,
    pub utf8_string: u32,
}

/// An in-flight `ConvertSelection`, keyed by the property its reply lands in.
#[derive(Clone, Copy, Debug, PartialEq, Eq, Structural)]
pub enum Conversion {
    AwaitTargets { selection: u32, property: u32 },
    AwaitText { selection: u32, property: u32 },
}

/// A client asks the owner of `selection` to convert it to `target` into
/// `property` of `requestor`.
#[derive(Clone, Copy, Debug, PartialEq, Eq, Structural)]
pub struct SelectionRequest {
    pub requestor: u32,
    pub selection: u32,
    pub target: u32,
    pub property: u32,
}

/// A SelectionNotify event, sent to `requestor`.
#[derive(Clone, Copy, Debug, PartialEq, Eq, Structural)]
pub struct SelectionNotify {
    pub time: u32,
    pub requestor: u32,
    pub selection: u32,
    pub target: u32,
    pub property: u32,
}

/// A `ChangeProperty` in replace mode: `data` holds elements of `format` bits.
#[derive(Debug)]
pub struct PropertyChange {
    pub window: u32,
    pub property: u32,
    pub type_: u32,
    pub format: u8,
    pub data: Vec<u8>,
}

/// The answer to a SelectionRequest: at most one property written, then one
/// SelectionNotify.
#[derive(Debug)]
pub struct Response {
    pub change: Option<PropertyChange>,
    pub notify: SelectionNotify,
}

/// A `ConvertSelection`, preceded by a `DeleteProperty` of `property` on `requestor`.
#[derive(Clone, Copy, Debug, PartialEq, Eq, Structural)]
pub struct ConvertRequest {
    pub requestor: u32,
    pub selection: u32,
    pub target: u32,
    pub property: u32,
    pub time: u32,
}

/// A `SetSelectionOwner`.
#[derive(Clone, Copy, Debug, PartialEq, Eq, Structural)]
pub struct SetOwner {
    pub owner: u32,
    pub selection: u32,
    pub time: u32,
}

/// The X11 events the engine reacts to.
#[derive(Clone, Copy, Debug, PartialEq, Eq, Structural)]
pub enum Event {
    SelectionRequest(SelectionRequest),
    /// XFIXES: the owner of `selection` is now `owner`.
    OwnerChanged { selection: u32, owner: u32 },
    SelectionNotify { requestor: u32, selection: u32, target: u32, property: u32 },
    Other,
}

/// What the caller does next for an event.
#[derive(Debug)]
pub enum Action {
    /// Write the response's property, then send its notify event.
    Serve(Response),
    /// Start a TARGETS conversion of `selection` (see `begin_targets`).
    QueryTargets { selection: u32 },
    /// Read (without deleting) `property` of `window`, delete it, and hand the
    /// value to `finish_targets`.
    ReadTargets { window: u32, property: u32 },
    /// Read and delete `property` of `window`, and hand the value to `finish_text`.
    ReadText { window: u32, property: u32 },
    /// A SelectionNotify for a property with no outstanding conversion.
    Unclaimed { property: u32 },
    Nothing,
}

/// The next step towards a free property for a new conversion.
#[derive(Debug)]
pub enum PropertyStep {
    /// This cached atom carries no outstanding conversion: use it.
    Free(u32),
    /// Intern this name, cache its atom, and ask again.
    Intern(String),
}

/// What a TARGETS reply leads to.
#[derive(Clone, Copy, Debug, PartialEq, Eq, Structural)]
pub enum TargetChoice {
    /// Fetch `selection` as UTF8_STRING (see `begin_text`).
    FetchText { selection: u32 },
    /// The owner offers an image: entry `index` of the names is the first
    /// `image/` target. Images are not captured.
    Image { selection: u32, index: usize },
    Ignore,
}

/// The four little-endian bytes of `x`.
pub open spec fn le32_bytes(x: u32) -> Seq<u8> {
    seq![(x % 256) as u8, ((x / 256) % 256) as u8, ((x / 65536) % 256) as u8, (x / 16777216) as u8]
}

/// The number that four little-endian bytes encode.
pub open spec fn le32_value(b: Seq<u8>, i: int) -> int {
    b[i] + 256 * b[i + 1] + 65536 * b[i + 2] + 16777216 * b[i + 3]
}

/// The non-zero atoms among the first `n` whole 4-byte chunks of `b`.
pub open spec fn atoms_in_chunks(b: Seq<u8>, n: nat) -> Seq<u32>
    decreases n,
{
    if n == 0 {
        seq![]
    } else {
        let prev = atoms_in_chunks(b, (n - 1) as nat);
        let a = le32_value(b, 4 * (n - 1));
        if a == 0 {
            prev
        } else {
            prev.push(a as u32)
        }
    }
}

/// A TARGETS reply read as packed little-endian 32-bit atoms: zero atoms and
/// a tail shorter than four bytes are skipped.
pub open spec fn targets_of(b: Seq<u8>) -> Seq<u32> {
    atoms_in_chunks(b, b.len() / 4)
}

/// `name` starts with `image/`.
pub open spec fn is_image_target(name: Seq<char>) -> bool {
    name.len() >= 6 && name.subrange(0, 6) == seq!['i', 'm', 'a', 'g', 'e', '/']
}

/// The choice a TARGETS reply with these target names leads to: UTF8_STRING
/// first, else the first image target, else nothing.
pub open spec fn choice_for(names: Seq<Seq<char>>, selection: u32) -> TargetChoice {
    if exists|k: int| 0 <= k < names.len() && names[k] == seq!['U', 'T', 'F', '8', '_', 'S', 'T', 'R', 'I', 'N', 'G'] {
        TargetChoice::FetchText { selection }
    } else if exists|k: int| 0 <= k < names.len() && is_image_target(#[trigger] names[k]) {
        TargetChoice::Image {
            selection,
            index: (choose|k: int|
                0 <= k < names.len() && is_image_target(#[trigger] names[k]) && forall|j: int|
                    0 <= j < k ==> !is_image_target(#[trigger] names[j])) as usize,
        }
    } else {
        TargetChoice::Ignore
    }
}

/// What `String::from_utf8_lossy(b)` decodes: `b` with each invalid
/// sequence replaced by U+FFFD.
pub uninterp spec fn utf8_lossy(b: Seq<u8>) -> Seq<char>;

/// Relies on `String::from_utf8_lossy`: it depends on the bytes alone, and
/// valid UTF-8 is decoded as it stands.
#[verifier::external_body]
fn decode_lossy(b: &[u8]) -> (r: String)
    ensures
        r@ == utf8_lossy(b@),
        valid_utf8(b@) ==> r@ == decode_utf8(b@),
{
    String::from_utf8_lossy(b).into_owned()
}

/// Reads a TARGETS reply: 4-byte little-endian atoms, zero atoms and a
/// non-aligned tail skipped.
pub fn parse_targets(value: &[u8]) -> (r: Vec<u32>)
    ensures
        r@ == targets_of(value@),
{
    let len = value.len();
    let chunks = len / 4;
    let mut out: Vec<u32> = Vec::new();
    let mut k: usize = 0;
    while k < chunks
        invariant
            len == value@.len(),
            chunks == len / 4,
            k <= chunks,
            out@ == atoms_in_chunks(value@, k as nat),
        decreases chunks - k,
    {
        assert(4 * k + 4 <= len) by (nonlinear_arith)
            requires
                k < chunks,
                chunks == len / 4,
        ;
        let i = 4 * k;
        let a: u32 = value[i] as u32 + 256 * (value[i + 1] as u32) + 65536 * (value[i + 2] as u32)
            + 16777216 * (value[i + 3] as u32);
        assert(a == le32_value(value@, 4 * k));
        if a != 0 {
            out.push(a);
        }
        k = k + 1;
    }
    out
}

fn push_le32(data: &mut Vec<u8>, x: u32)
    ensures
        final(data)@ == old(data)@ + le32_bytes(x),
{
    data.push((x % 256) as u8);
    data.push(((x / 256) % 256) as u8);
    data.push(((x / 65536) % 256) as u8);
    data.push((x / 16777216) as u8);
    assert(final(data)@ =~= old(data)@ + le32_bytes(x));
}

fn is_utf8_string_name(name: &String) -> (r: bool)
    ensures
        r == (name@ == seq!['U', 'T', 'F', '8', '_', 'S', 'T', 'R', 'I', 'N', 'G']),
{
    let s = name.as_str();
    let expected = "UTF8_STRING";
    proof {
        reveal_strlit("UTF8_STRING");
    }
    assert(expected@ =~= seq!['U', 'T', 'F', '8', '_', 'S', 'T', 'R', 'I', 'N', 'G']);
    if s.unicode_len() != 11 {
        return false;
    }
    let mut k: usize = 0;
    while k < 11
        invariant
            s@ == name@,
            s@.len() == 11,
            expected@ == seq!['U', 'T', 'F', '8', '_', 'S', 'T', 'R', 'I', 'N', 'G'],
            k <= 11,
            forall|m: int| 0 <= m < k ==> s@[m] == expected@[m],
        decreases 11 - k,
    {
        if s.get_char(k) != expected.get_char(k) {
            return false;
        }
        k = k + 1;
    }
    assert(s@ =~= expected@);
    true
}

fn is_image_name(name: &String) -> (r: bool)
    ensures
        r == is_image_target(name@),
{
    let s = name.as_str();
    let prefix = "image/";
    proof {
        reveal_strlit("image/");
    }
    assert(prefix@ =~= seq!['i', 'm', 'a', 'g', 'e', '/']);
    if s.unicode_len() < 6 {
        return false;
    }
    let mut k: usize = 0;
    while k < 6
        invariant
            s@ == name@,
            s@.len() >= 6,
            prefix@ == seq!['i', 'm', 'a', 'g', 'e', '/'],
            k <= 6,
            forall|m: int| 0 <= m < k ==> s@[m] == prefix@[m],
        decreases 6 - k,
    {
        if s.get_char(k) != prefix.get_char(k) {
            assert(s@.subrange(0, 6)[k as int] != prefix@[k as int]);
            return false;
        }
        k = k + 1;
    }
    assert(s@.subrange(0, 6) =~= prefix@);
    true
}

/// The target a TARGETS reply with these names leads to.
pub fn choose_target(names: &Vec<String>, selection: u32) -> (r: TargetChoice)
    ensures
        r == choice_for(names@.map_values(|s: String| s@), selection),
{
    let ghost views = names@.map_values(|s: String| s@);
    let n = names.len();
    let mut k: usize = 0;
    while k < n
        invariant
            n == names@.len(),
            views == names@.map_values(|s: String| s@),
            k <= n,
            forall|m: int|
                0 <= m < k ==> views[m] != seq!['U', 'T', 'F', '8', '_', 'S', 'T', 'R', 'I', 'N', 'G'],
        decreases n - k,
    {
        if is_utf8_string_name(&names[k]) {
            assert(views[k as int] == seq!['U', 'T', 'F', '8', '_', 'S', 'T', 'R', 'I', 'N', 'G']);
            return TargetChoice::FetchText { selection };
        }
        k = k + 1;
    }
    let mut j: usize = 0;
    while j < n
        invariant
            n == names@.len(),
            views == names@.map_values(|s: String| s@),
            j <= n,
            forall|m: int|
                0 <= m < n ==> views[m] != seq!['U', 'T', 'F', '8', '_', 'S', 'T', 'R', 'I', 'N', 'G'],
            forall|m: int| 0 <= m < j ==> !is_image_target(#[trigger] views[m]),
        decreases n - j,
    {
        if is_image_name(&names[j]) {
            assert(is_image_target(views[j as int]));
            let ghost idx = choose|i: int|
                0 <= i < views.len() && is_image_target(#[trigger] views[i]) && forall|m: int|
                    0 <= m < i ==> !is_image_target(#[trigger] views[m]);
            assert(idx == j as int) by {
                if idx < j {
                    assert(!is_image_target(views[idx]));
                }
                if idx > j {
                    assert(!is_image_target(views[j as int]));
                }
            }
            return TargetChoice::Image { selection, index: j };
        }
        j = j + 1;
    }
    TargetChoice::Ignore
}

/// The history source that a selection atom stands for.
pub open spec fn source_of(known: KnownAtoms, selection: u32) -> Source {
    if selection == known.secondary {
        Source::Secondary
    } else if selection == known.clipboard {
        Source::Clipboard
    } else {
        Source::Primary
    }
}

/// The bytes written in answer to a UTF8_STRING request.
pub open spec fn served_text(selection: Option<ClipView>) -> Seq<u8> {
    match selection {
        Some(c) => text_bytes(c.text),
        None => text_bytes(seq!['n', '/', 'a']),
    }
}

/// The bytes written in answer to a TARGETS request.
pub open spec fn served_targets(known: KnownAtoms, selection: Option<ClipView>) -> Seq<u8> {
    match selection {
        Some(_) => le32_bytes(known.targets) + le32_bytes(known.utf8_string),
        None => seq![],
    }
}

/// `change` writes `data` of `type_` and `format` into `property` of `window`.
pub open spec fn writes(
    change: Option<PropertyChange>,
    window: u32,
    property: u32,
    type_: u32,
    format: u8,
    data: Seq<u8>,
) -> bool {
    match change {
        Some(ch) => ch.window == window && ch.property == property && ch.type_ == type_
            && ch.format == format && ch.data@ == data,
        None => false,
    }
}

/// `resp` answers `req`: a notify to the requestor with the request's
/// fields, after writing the TARGETS list or the selected text, as asked;
/// nothing is written for another target.
pub open spec fn answers(
    known: KnownAtoms,
    req: SelectionRequest,
    selection: Option<ClipView>,
    resp: Response,
) -> bool {
    &&& resp.notify == SelectionNotify {
        time: 0,
        requestor: req.requestor,
        selection: req.selection,
        target: req.target,
        property: req.property,
    }
    &&& req.target == known.targets ==> writes(
        resp.change,
        req.requestor,
        req.property,
        XA_ATOM,
        32,
        served_targets(known, selection),
    )
    &&& req.target != known.targets && req.target == known.utf8_string ==> writes(
        resp.change,
        req.requestor,
        req.property,
        known.utf8_string,
        8,
        served_text(selection),
    )
    &&& req.target != known.targets && req.target != known.utf8_string ==> resp.change is None
}

/// The selection engine's state: its two windows, the conversions in
/// flight, and whether capture is paused.
pub struct Clipboard {
    getter: u32,
    setter: u32,
    known: KnownAtoms,
    paused: bool,
    get_states: HashMap<u32, Conversion>,
}

impl Clipboard {
    pub closed spec fn getter_spec(&self) -> u32 {
        self.getter
    }

    pub closed spec fn setter_spec(&self) -> u32 {
        self.setter
    }

    pub closed spec fn known_spec(&self) -> KnownAtoms {
        self.known
    }

    pub closed spec fn paused_spec(&self) -> bool {
        self.paused
    }

    /// The outstanding conversions, by the property their reply lands in.
    pub closed spec fn outstanding(&self) -> Map<u32, Conversion> {
        self.get_states@
    }

    /// An engine that owns windows `getter` (receives converted values) and
    /// `setter` (owns the selection when a clip is served).
    pub fn new(getter: u32, setter: u32, known: KnownAtoms) -> (r: Clipboard)
        ensures
            r.getter_spec() == getter,
            r.setter_spec() == setter,
            r.known_spec() == known,
            !r.paused_spec(),
            r.outstanding() == Map::<u32, Conversion>::empty(),
    {
        Clipboard { getter, setter, known, paused: false, get_states: HashMap::new() }
    }

    pub fn getter(&self) -> (r: u32)
        ensures
            r == self.getter_spec(),
    {
        self.getter
    }

    pub fn setter(&self) -> (r: u32)
        ensures
            r == self.setter_spec(),
    {
        self.setter
    }

    pub fn known(&self) -> (r: KnownAtoms)
        ensures
            r == self.known_spec(),
    {
        self.known
    }

    pub fn is_paused(&self) -> (r: bool)
        ensures
            r == self.paused_spec(),
    {
        self.paused
    }

    /// Stops starting new captures; conversions in flight still complete.
    pub fn pause(&mut self)
        ensures
            final(self).paused_spec(),
            final(self).getter_spec() == old(self).getter_spec(),
            final(self).setter_spec() == old(self).setter_spec(),
            final(self).known_spec() == old(self).known_spec(),
            final(self).outstanding() == old(self).outstanding(),
    {
        self.paused = true;
    }

    /// Resumes capture.
    pub fn start(&mut self)
        ensures
            !final(self).paused_spec(),
            final(self).getter_spec() == old(self).getter_spec(),
            final(self).setter_spec() == old(self).setter_spec(),
            final(self).known_spec() == old(self).known_spec(),
            final(self).outstanding() == old(self).outstanding(),
    {
        self.paused = false;
    }

    /// Whether `property` carries no outstanding conversion.
    pub fn is_free_property(&self, property: u32) -> (r: bool)
        ensures
            r == !self.outstanding().contains_key(property),
    {
        !self.get_states.contains_key(&property)
    }

    /// The property names `REPEAT_0` .. `REPEAT_{n-1}` are all cached, and
    /// each one's atom carries an outstanding conversion.
    pub open spec fn taken_below(&self, atoms: Seq<(Seq<char>, u32)>, n: nat) -> bool {
        forall|m: nat|
            m < n ==> has_name(atoms, #[trigger] property_name(m)) && forall|a: u32|
                caches(atoms, property_name(m), a) ==> self.outstanding().contains_key(a)
    }

    /// Looks for the first property name `REPEAT_n` whose atom carries no
    /// outstanding conversion, through the atom cache: returns that atom, or
    /// the first name on the way that is not cached yet.
    pub fn next_free_property(&self, atoms: &AtomCache) -> (r: PropertyStep)
        requires
            atoms.wf(),
        ensures
            r matches PropertyStep::Free(a) ==> exists|n: nat|
                self.taken_below(atoms@, n) && caches(atoms@, #[trigger] property_name(n), a)
                    && !self.outstanding().contains_key(a),
            r matches PropertyStep::Intern(s) ==> exists|n: nat|
                self.taken_below(atoms@, n) && s@ == #[trigger] property_name(n) && !has_name(
                    atoms@,
                    s@,
                ),
    {
        let prefix = "REPEAT_";
        proof {
            reveal_strlit("REPEAT_");
        }
        assert(prefix@ =~= property_prefix());
        let total = atoms.len();
        let mut n: usize = 0;
        loop
            invariant
                total == atoms@.len(),
                atoms.wf(),
                prefix@ == property_prefix(),
                self.taken_below(atoms@, n as nat),
                n <= atoms@.len(),
            decreases atoms@.len() - n,
        {
            let name = with_number(prefix, n);
            assert(name@ == property_name(n as nat));
            match atoms.get(name.as_str()) {
                None => {
                    return PropertyStep::Intern(name);
                },
                Some(a) => {
                    if !self.get_states.contains_key(&a) {
                        return PropertyStep::Free(a);
                    }
                    proof {
                        assert forall|b: u32| caches(atoms@, property_name(n as nat), b) implies self.outstanding().contains_key(b) by {
                            let i = choose|i: int| 0 <= i < atoms@.len() && atoms@[i].0 == property_name(n as nat) && atoms@[i].1 == a;
                            let j = choose|j: int| 0 <= j < atoms@.len() && atoms@[j].0 == property_name(n as nat) && atoms@[j].1 == b;
                            assert(i == j);
                        }
                        assert(self.taken_below(atoms@, (n + 1) as nat));
                        lemma_names_fit(atoms@, (n + 1) as nat);
                    }
                    n = n + 1;
                },
            }
        }
    }

    /// Makes `setter` the owner of PRIMARY.
    pub fn take_ownership(&self) -> (r: SetOwner)
        ensures
            r == (SetOwner { owner: self.setter_spec(), selection: self.known_spec().primary, time: 0 }),
    {
        SetOwner { owner: self.setter, selection: self.known.primary, time: 0 }
    }

    /// The answer to a SelectionRequest, given the selected clip.
    pub fn serve_request(&self, req: &SelectionRequest, selection: &Option<Clip>) -> (r: Response)
        ensures
            answers(self.known_spec(), *req, crate::db::view_opt(*selection), r),
    {
        let change = if req.target == self.known.targets {
            let mut data: Vec<u8> = Vec::new();
            match selection {
                None => {
                    assert(data@ =~= seq![]);
                },
                Some(_) => {
                    push_le32(&mut data, self.known.targets);
                    push_le32(&mut data, self.known.utf8_string);
                    assert(data@ =~= le32_bytes(self.known.targets) + le32_bytes(
                        self.known.utf8_string,
                    ));
                },
            }
            Some(
                PropertyChange {
                    window: req.requestor,
                    property: req.property,
                    type_: XA_ATOM,
                    format: 32,
                    data,
                },
            )
        } else if req.target == self.known.utf8_string {
            let data = match selection {
                None => {
                    let s = "n/a";
                    proof {
                        reveal_strlit("n/a");
                    }
                    assert(s@ =~= seq!['n', '/', 'a']);
                    slice_to_vec(s.as_bytes())
                },
                Some(clip) => slice_to_vec(clip.contents.text().as_str().as_bytes()),
            };
            Some(
                PropertyChange {
                    window: req.requestor,
                    property: req.property,
                    type_: self.known.utf8_string,
                    format: 8,
                    data,
                },
            )
        } else {
            None
        };
        let notify = SelectionNotify {
            time: 0,
            requestor: req.requestor,
            selection: req.selection,
            target: req.target,
            property: req.property,
        };
        Response { change, notify }
    }

    /// What to do for an event, given the selected clip.
    pub fn handle_event(&self, event: &Event, selection: &Option<Clip>) -> (r: Action)
        ensures
            *event matches Event::SelectionRequest(req) ==> (r matches Action::Serve(resp) && answers(
                self.known_spec(),
                req,
                crate::db::view_opt(*selection),
                resp,
            )),
            *event matches Event::OwnerChanged { selection: sel, owner } ==> if owner
                != self.setter_spec() && !self.paused_spec() {
                r == (Action::QueryTargets { selection: sel })
            } else {
                r is Nothing
            },
            *event matches Event::SelectionNotify { requestor, property, .. } ==> match self.outstanding().get(property) {
                None => r == (Action::Unclaimed { property }),
                Some(Conversion::AwaitTargets { .. }) => r == (Action::ReadTargets { window: self.getter_spec(), property }),
                Some(Conversion::AwaitText { .. }) => r == (Action::ReadText { window: requestor, property }),
            },
            *event is Other ==> r is Nothing,
    {
        match event {
            Event::SelectionRequest(req) => Action::Serve(self.serve_request(req, selection)),
            Event::OwnerChanged { selection: sel, owner } => {
                if *owner != self.setter && !self.paused {
                    Action::QueryTargets { selection: *sel }
                } else {
                    Action::Nothing
                }
            },
            Event::SelectionNotify { requestor, property, .. } => {
                match self.get_states.get(property) {
                    None => Action::Unclaimed { property: *property },
                    Some(Conversion::AwaitTargets { .. }) => Action::ReadTargets {
                        window: self.getter,
                        property: *property,
                    },
                    Some(Conversion::AwaitText { .. }) => Action::ReadText {
                        window: *requestor,
                        property: *property,
                    },
                }
            },
            Event::Other => Action::Nothing,
        }
    }

    /// Records a TARGETS conversion of `selection` into `property` and
    /// returns the request that starts it.
    pub fn begin_targets(&mut self, selection: u32, property: u32) -> (r: ConvertRequest)
        ensures
            final(self).outstanding() == old(self).outstanding().insert(
                property,
                Conversion::AwaitTargets { selection, property },
            ),
            r == (ConvertRequest {
                requestor: old(self).getter_spec(),
                selection,
                target: old(self).known_spec().targets,
                property,
                time: 0,
            }),
            final(self).getter_spec() == old(self).getter_spec(),
            final(self).setter_spec() == old(self).setter_spec(),
            final(self).known_spec() == old(self).known_spec(),
            final(self).paused_spec() == old(self).paused_spec(),
    {
        self.get_states.insert(property, Conversion::AwaitTargets { selection, property });
        ConvertRequest {
            requestor: self.getter,
            selection,
            target: self.known.targets,
            property,
            time: 0,
        }
    }

    /// Records a UTF8_STRING conversion of `selection` into `property` and
    /// returns the request that starts it.
    pub fn begin_text(&mut self, selection: u32, property: u32) -> (r: ConvertRequest)
        ensures
            final(self).outstanding() == old(self).outstanding().insert(
                property,
                Conversion::AwaitText { selection, property },
            ),
            r == (ConvertRequest {
                requestor: old(self).getter_spec(),
                selection,
                target: old(self).known_spec().utf8_string,
                property,
                time: 0,
            }),
            final(self).getter_spec() == old(self).getter_spec(),
            final(self).setter_spec() == old(self).setter_spec(),
            final(self).known_spec() == old(self).known_spec(),
            final(self).paused_spec() == old(self).paused_spec(),
    {
        self.get_states.insert(property, Conversion::AwaitText { selection, property });
        ConvertRequest {
            requestor: self.getter,
            selection,
            target: self.known.utf8_string,
            property,
            time: 0,
        }
    }

    /// Ends the TARGETS conversion on `property`, given the names of the
    /// atoms its reply listed, and says which target to fetch next.
    pub fn finish_targets(&mut self, property: u32, names: &Vec<String>) -> (r: TargetChoice)
        ensures
            final(self).outstanding() == old(self).outstanding().remove(property),
            match old(self).outstanding().get(property) {
                Some(Conversion::AwaitTargets { selection, .. }) => r == choice_for(
                    names@.map_values(|s: String| s@),
                    selection,
                ),
                _ => r is Ignore,
            },
            final(self).getter_spec() == old(self).getter_spec(),
            final(self).setter_spec() == old(self).setter_spec(),
            final(self).known_spec() == old(self).known_spec(),
            final(self).paused_spec() == old(self).paused_spec(),
    {
        let state = self.get_states.remove(&property);
        match state {
            Some(Conversion::AwaitTargets { selection, .. }) => choose_target(names, selection),
            _ => TargetChoice::Ignore,
        }
    }

    /// Ends the UTF8_STRING conversion on `property` with the bytes its reply
    /// held: they are decoded (invalid sequences replaced) and added to the
    /// history as a clip of the selection the conversion was for.
    pub fn finish_text(&mut self, property: u32, value: &[u8], db: &mut Database) -> (r: Option<
        usize,
    >)
        requires
            old(db).wf(),
            old(db)@.next_index() < usize::MAX,
        ensures
            final(self).outstanding() == old(self).outstanding().remove(property),
            final(db).wf(),
            match old(self).outstanding().get(property) {
                Some(Conversion::AwaitText { selection, .. }) => {
                    let c = ClipView {
                        source: source_of(old(self).known_spec(), selection),
                        text: utf8_lossy(value@),
                    };
                    &&& final(db)@ == after_add(old(db)@, c)
                    &&& (r matches Some(i) ==> added_index(old(db)@, c) == Some(i as int))
                    &&& (r is None ==> added_index(old(db)@, c) is None)
                },
                _ => final(db)@ == old(db)@ && r is None,
            },
            final(self).getter_spec() == old(self).getter_spec(),
            final(self).setter_spec() == old(self).setter_spec(),
            final(self).known_spec() == old(self).known_spec(),
            final(self).paused_spec() == old(self).paused_spec(),
    {
        let state = self.get_states.remove(&property);
        match state {
            Some(Conversion::AwaitText { selection, .. }) => {
                let text = decode_lossy(value);
                let source = if selection == self.known.secondary {
                    Source::Secondary
                } else if selection == self.known.clipboard {
                    Source::Clipboard
                } else {
                    Source::Primary
                };
                db.add_clip(Clip::new(source, ClipContents::Text(text)))
            },
            _ => None,
        }
    }
}

} // verus!
