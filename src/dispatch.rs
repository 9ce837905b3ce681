use vstd::prelude::*;

use crate::codec::{cells_json, decode_cells, encode_cells, parsed_cells};
use crate::life::{cells_of, fits, next_generation, pos, toggled, unique, CellCoord, Life};
use crate::protocol::Protocol;

verus! {

/// A request to export the board, carrying its JSON list of cells.
#[derive(Debug, Clone, PartialEq, Eq)]
pub enum ExportOperation {
    /// Save the bytes to a file.
    Save(Vec<u8>),
    /// Copy the bytes to the clipboard.
    Copy(Vec<u8>),
}

/// A message to show to the user, with its severity.
#[derive(Debug, Clone, PartialEq, Eq)]
pub enum AlertOpereation {
    Info(String),
    Warning(String),
    Error(String),
}

/// How the host finished a request.
#[derive(Debug, Clone, PartialEq, Eq)]
pub enum Completion {
    /// The request was carried out.
    Done,
    /// The request failed, for the given reason.
    Failed(String),
}

/// The inputs the dispatcher accepts.
#[derive(Debug, Clone, PartialEq, Eq)]
pub enum Event {
    /// Ask for a redraw.
    Render,
    /// Advance the board by one generation.
    Step,
    /// Show a message to the user.
    Echo(String),
    /// Flip one cell between live and dead.
    ToggleCell(CellCoord),
    /// Save the board.
    SaveWorld,
    /// Copy the board to the clipboard.
    CopyWorld,
    /// Replace the board by the JSON list of cells in the bytes.
    LoadWorld(Vec<u8>),
    /// The host finished the request with this correlation id.
    Completed(u64, Completion),
}

/// What the dispatcher asks the host to do, in order.
#[derive(Debug, Clone, PartialEq, Eq)]
pub enum Effect {
    /// Redraw from a fresh view of the model.
    Render,
    /// Carry out an export; answer with `Event::Completed` and the id.
    Export(u64, ExportOperation),
    /// Show a message; answer with `Event::Completed` and the id.
    Alert(u64, AlertOpereation),
}

/// Why an event was refused. A refused event leaves the model unchanged,
/// except where a completion was consumed.
#[derive(Debug, Clone, Copy, PartialEq, Eq, Structural)]
pub enum CoreError {
    /// The bytes to load are not a JSON list of cells.
    DecodeError,
    /// A completion names no outstanding request.
    ProtocolViolation,
    /// A live cell lies too close to the end of the `i32` range for a step.
    OutOfRange,
    /// Every correlation id has been handed out.
    IdsExhausted,
}

/// The whole state of the application: the board and the outstanding
/// requests.
pub struct Model {
    life: Life,
    protocol: Protocol,
}

/// A model whose board holds the given cells and with no request outstanding.
pub fn new(init_life: &[CellCoord]) -> (r: Model)
    ensures
        r.wf(),
        r.cells() == cells_of(init_life@),
        r.pending() == Set::<u64>::empty(),
        r.counter() == 0,
{
    Model { life: Life::new(init_life), protocol: Protocol::new() }
}

impl Model {
    /// The live cells.
    pub closed spec fn cells(&self) -> Set<(int, int)> {
        self.life.cells()
    }

    /// The correlation ids of the outstanding requests.
    pub closed spec fn pending(&self) -> Set<u64> {
        self.protocol.pending()
    }

    /// The correlation id the next request gets; ids are handed out in
    /// increasing order and never twice.
    pub closed spec fn counter(&self) -> u64 {
        self.protocol.counter()
    }

    /// Every correlation id has been handed out.
    pub open spec fn exhausted(&self) -> bool {
        self.counter() == u64::MAX
    }

    /// Every outstanding id was handed out before the counter.
    pub open spec fn ids_below_counter(&self) -> bool {
        forall|id: u64| #[trigger] self.pending().contains(id) ==> id < self.counter()
    }

    /// The board and the outstanding ids are well formed.
    pub closed spec fn wf(&self) -> bool {
        self.life.wf() && self.protocol.wf()
    }

    /// In a well-formed model every outstanding id lies below the counter,
    /// so the ids handed out next are fresh.
    pub proof fn lemma_ids_below_counter(&self)
        requires
            self.wf(),
        ensures
            self.ids_below_counter(),
    {
        self.protocol.lemma_pending_below();
    }

    /// Every live cell lies far enough inside the `i32` range for a step.
    pub open spec fn fits_step(&self) -> bool {
        forall|p: (int, int)| #[trigger] self.cells().contains(p) ==> fits(p, 2)
    }

    /// The board.
    pub fn life(&self) -> (r: &Life)
        ensures
            r.cells() == self.cells(),
            r.fits_all(2) == self.fits_step(),
            self.wf() ==> r.wf(),
    {
        proof {
            if self.life.fits_all(2) {
                assert forall|p: (int, int)| #[trigger] self.cells().contains(p) implies fits(p, 2) by {
                    assert(self.life.cells().contains(p));
                }
            }
            if self.fits_step() {
                assert forall|p: (int, int)| self.life.cells().contains(p) implies fits(p, 2) by {
                    assert(self.cells().contains(p));
                }
            }
        }
        &self.life
    }
}

/// The result is `Ok` with exactly these effects.
pub open spec fn emits(r: Result<Vec<Effect>, CoreError>, effects: Seq<Effect>) -> bool {
    r is Ok && r->Ok_0@ == effects
}

/// `after` keeps the board of `before` and adds `before`'s counter, never
/// handed out before, to the outstanding ids.
pub open spec fn issued(before: &Model, after: &Model) -> bool {
    &&& !before.pending().contains(before.counter())
    &&& after.pending() == before.pending().insert(before.counter())
    &&& after.counter() == before.counter() + 1
    &&& after.cells() == before.cells()
}

/// `after` has the outstanding ids and the counter of `before`.
pub open spec fn same_ids(before: &Model, after: &Model) -> bool {
    after.pending() == before.pending() && after.counter() == before.counter()
}

/// The result is one export of the board: the JSON text of a list of its
/// cells, each once, under a fresh id.
pub open spec fn exported(
    before: &Model,
    after: &Model,
    r: Result<Vec<Effect>, CoreError>,
    copy: bool,
) -> bool {
    issued(before, after) && r is Ok && r->Ok_0@.len() == 1 && exists|l: Seq<CellCoord>|
        #![trigger cells_json(l)]
        unique(l) && cells_of(l) == before.cells() && match r->Ok_0@[0] {
            Effect::Export(i, ExportOperation::Save(b)) => !copy && i == before.counter() && b@
                == cells_json(l),
            Effect::Export(i, ExportOperation::Copy(b)) => copy && i == before.counter() && b@
                == cells_json(l),
            _ => false,
        }
}

/// A list of one effect.
fn single(e: Effect) -> (r: Vec<Effect>)
    ensures
        r@ == seq![e],
{
    let mut r = Vec::new();
    r.push(e);
    r
}

/// The application: applies one event at a time to the model.
pub struct App;

impl App {
    /// Applies `event` to the model and returns the effects for the host, in
    /// the order they are to be carried out.
    pub fn update(&self, event: Event, model: &mut Model) -> (r: Result<Vec<Effect>, CoreError>)
        requires
            old(model).wf(),
        ensures
            final(model).wf(),
            r is Err && r != Err::<Vec<Effect>, CoreError>(CoreError::IdsExhausted) ==> *final(model) == *old(model),
            match event {
                Event::Render => {
                    &&& emits(r, seq![Effect::Render])
                    &&& *final(model) == *old(model)
                },
                Event::Step => if old(model).fits_step() {
                    &&& emits(r, seq![Effect::Render])
                    &&& final(model).cells() == next_generation(old(model).cells())
                    &&& same_ids(old(model), final(model))
                } else {
                    r == Err::<Vec<Effect>, CoreError>(CoreError::OutOfRange)
                },
                Event::Echo(msg) => if old(model).exhausted() {
                    r == Err::<Vec<Effect>, CoreError>(CoreError::IdsExhausted) && *final(model) == *old(model)
                } else {
                    &&& issued(old(model), final(model))
                    &&& emits(r, seq![Effect::Alert(old(model).counter(), AlertOpereation::Info(msg))])
                },
                Event::ToggleCell(c) => {
                    &&& emits(r, seq![Effect::Render])
                    &&& final(model).cells() == toggled(old(model).cells(), pos(c))
                    &&& same_ids(old(model), final(model))
                },
                Event::SaveWorld => if old(model).exhausted() {
                    r == Err::<Vec<Effect>, CoreError>(CoreError::IdsExhausted) && *final(model) == *old(model)
                } else {
                    exported(old(model), final(model), r, false)
                },
                Event::CopyWorld => if old(model).exhausted() {
                    r == Err::<Vec<Effect>, CoreError>(CoreError::IdsExhausted) && *final(model) == *old(model)
                } else {
                    exported(old(model), final(model), r, true)
                },
                Event::LoadWorld(bytes) => match parsed_cells(bytes@) {
                    None => r == Err::<Vec<Effect>, CoreError>(CoreError::DecodeError),
                    Some(l) => {
                        &&& emits(r, seq![Effect::Render])
                        &&& final(model).cells() == cells_of(l)
                        &&& same_ids(old(model), final(model))
                    },
                },
                Event::Completed(id, outcome) => if !old(model).pending().contains(id) {
                    r == Err::<Vec<Effect>, CoreError>(CoreError::ProtocolViolation)
                } else {
                    id < old(model).counter() && match outcome {
                        Completion::Done => {
                            &&& emits(r, Seq::empty())
                            &&& final(model).cells() == old(model).cells()
                            &&& final(model).pending() == old(model).pending().remove(id)
                            &&& final(model).counter() == old(model).counter()
                        },
                        Completion::Failed(msg) => if old(model).exhausted() {
                            &&& r == Err::<Vec<Effect>, CoreError>(CoreError::IdsExhausted)
                            &&& final(model).cells() == old(model).cells()
                            &&& final(model).pending() == old(model).pending().remove(id)
                            &&& final(model).counter() == old(model).counter()
                        } else {
                            &&& final(model).pending() == old(model).pending().remove(id).insert(old(model).counter())
                            &&& final(model).counter() == old(model).counter() + 1
                            &&& final(model).cells() == old(model).cells()
                            &&& emits(r, seq![Effect::Alert(old(model).counter(), AlertOpereation::Error(msg))])
                        },
                    }
                },
            },
    {
        proof {
            model.lemma_ids_below_counter();
        }
        match event {
            Event::Render => Ok(single(Effect::Render)),
            Event::Step => {
                if !model.life().fits_tick() {
                    return Err(CoreError::OutOfRange);
                }
                model.life.tick();
                Ok(single(Effect::Render))
            },
            Event::Echo(msg) => {
                let ghost before = *model;
                match model.protocol.issue() {
                    Some(id) => {
                        let r: Result<Vec<Effect>, CoreError> = Ok(single(Effect::Alert(id, AlertOpereation::Info(msg))));
                        assert(issued(&before, model));
                        r
                    },
                    None => Err(CoreError::IdsExhausted),
                }
            },
            Event::ToggleCell(coord) => {
                model.life.toggle_cell(coord);
                Ok(single(Effect::Render))
            },
            Event::SaveWorld => Self::export(model, false),
            Event::CopyWorld => Self::export(model, true),
            Event::LoadWorld(data) => {
                match decode_cells(data.as_slice()) {
                    Some(coords) => {
                        model.life.clear();
                        model.life.add_cells(coords.as_slice());
                        assert(model.cells() =~= cells_of(coords@));
                        Ok(single(Effect::Render))
                    },
                    None => Err(CoreError::DecodeError),
                }
            },
            Event::Completed(id, outcome) => {
                if model.protocol.resolve(id).is_err() {
                    return Err(CoreError::ProtocolViolation);
                }
                let ghost resolved = model.pending();
                match outcome {
                    Completion::Done => Ok(Vec::new()),
                    Completion::Failed(msg) => {
                        match model.protocol.issue() {
                            Some(id2) => {
                                let r: Result<Vec<Effect>, CoreError> = Ok(single(Effect::Alert(id2, AlertOpereation::Error(msg))));
                                assert(resolved.insert(id2) == model.pending());
                                r
                            },
                            None => Err(CoreError::IdsExhausted),
                        }
                    },
                }
            },
        }
    }

    /// Issues a save or a copy of the board's JSON list of cells.
    fn export(model: &mut Model, copy: bool) -> (r: Result<Vec<Effect>, CoreError>)
        requires
            old(model).wf(),
        ensures
            final(model).wf(),
            r is Err ==> *final(model) == *old(model),
            if old(model).exhausted() {
                r == Err::<Vec<Effect>, CoreError>(CoreError::IdsExhausted)
            } else {
                exported(old(model), final(model), r, copy)
            },
    {
        if model.protocol.is_exhausted() {
            return Err(CoreError::IdsExhausted);
        }
        let cells = model.life.state_as_list();
        let data = encode_cells(&cells).unwrap();
        let ghost before = *model;
        let id = match model.protocol.issue() {
            Some(id) => id,
            None => return Err(CoreError::IdsExhausted),
        };
        let op = if copy { ExportOperation::Copy(data) } else { ExportOperation::Save(data) };
        let r = single(Effect::Export(id, op));
        assert(issued(&before, model));
        Ok(r)
    }
}

} // verus!
