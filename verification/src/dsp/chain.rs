//! The stages through which audio runs, in their order.

use vstd::prelude::*;
use crate::float_bits::less_than;
use crate::types::EngineState;

verus! {

/// A stage.
#[derive(Debug, Clone, Copy, PartialEq, Eq, Structural)]
pub enum Stage {
    HeadphoneCorrection,
    GraphicEq,
    BassBoost,
    Spatializer,
    Surround3D,
    RoomEffects,
    Convolver,
    Compander,
    Gain,
    Limiter,
}

/// The stages in the order in which they run.
pub open spec fn stage_order() -> Seq<Stage> {
    seq![
        Stage::HeadphoneCorrection,
        Stage::GraphicEq,
        Stage::BassBoost,
        Stage::Spatializer,
        Stage::Surround3D,
        Stage::RoomEffects,
        Stage::Convolver,
        Stage::Compander,
        Stage::Gain,
        Stage::Limiter,
    ]
}

/// The stages in the order in which they run.
pub fn standard() -> (r: Vec<Stage>)
    ensures
        r@ == stage_order(),
{
    let mut out: Vec<Stage> = Vec::new();
    out.push(Stage::HeadphoneCorrection);
    out.push(Stage::GraphicEq);
    out.push(Stage::BassBoost);
    out.push(Stage::Spatializer);
    out.push(Stage::Surround3D);
    out.push(Stage::RoomEffects);
    out.push(Stage::Convolver);
    out.push(Stage::Compander);
    out.push(Stage::Gain);
    out.push(Stage::Limiter);
    assert(out@ =~= stage_order());
    out
}

/// No stage runs twice, and the limiter runs last, directly behind the gain that it has to catch.
pub proof fn law_the_limiter_runs_last()
    ensures
        stage_order().no_duplicates(),
        stage_order().last() == Stage::Limiter,
        stage_order()[stage_order().len() - 2] == Stage::Gain,
{
}

/// A stage that processes blocks in place. What it does is its own matter: a stage that says nothing
/// of itself can do anything.
pub trait AudioProcessor: Sized {
    /// Making the stage ready for a format can lead to this.
    open spec fn prepares(self, rate: u32, channels: usize, after: Self) -> bool {
        true
    }

    /// Processing a block can lead to this stage and this block.
    open spec fn processes(self, block: Seq<u32>, channels: usize, after: Self, out: Seq<u32>) -> bool {
        true
    }

    /// Taking settings can lead to this.
    open spec fn takes(self, params: EngineState, after: Self) -> bool {
        true
    }

    /// Makes the stage ready for a format: the sample rate, as bits, and the number of channels.
    fn prepare(&mut self, rate: u32, channels: usize)
        ensures
            old(self).prepares(rate, channels, *final(self)),
    ;

    /// Processes an interleaved block in place.
    fn process(&mut self, buffer: &mut Vec<u32>, channels: usize)
        ensures
            old(self).processes(old(buffer)@, channels, *final(self), final(buffer)@),
    ;

    /// Takes new settings.
    fn set_params(&mut self, params: &EngineState)
        ensures
            old(self).takes(*params, *final(self)),
    ;
}

/// Stages that run one behind the other, in a format. Before the format is known the rate is zero.
/// Without power the chain passes audio through.
pub struct ProcessChain<P: AudioProcessor> {
    processors: Vec<P>,
    power: bool,
    rate: u32,
    channels: usize,
}

/// The content of a [`ProcessChain`].
pub struct ChainView<P> {
    pub stages: Seq<P>,
    pub power: bool,
    pub rate: u32,
    pub channels: usize,
}

impl<P: AudioProcessor> View for ProcessChain<P> {
    type V = ChainView<P>;

    closed spec fn view(&self) -> ChainView<P> {
        ChainView {
            stages: self.processors@,
            power: self.power,
            rate: self.rate,
            channels: self.channels,
        }
    }
}

/// Every stage was made ready for a format.
pub open spec fn all_prepared<P: AudioProcessor>(
    before: Seq<P>,
    rate: u32,
    channels: usize,
    after: Seq<P>,
) -> bool {
    &&& after.len() == before.len()
    &&& forall|i: int|
        0 <= i < before.len() ==> (#[trigger] before[i]).prepares(rate, channels, after[i])
}

/// Every stage took the settings.
pub open spec fn all_took<P: AudioProcessor>(
    before: Seq<P>,
    params: EngineState,
    after: Seq<P>,
) -> bool {
    &&& after.len() == before.len()
    &&& forall|i: int|
        0 <= i < before.len() ==> (#[trigger] before[i]).takes(params, after[i])
}

/// A block ran through the stages in their order; `blocks` are the blocks between them, the first
/// of which went in.
pub open spec fn ran_through<P: AudioProcessor>(
    before: Seq<P>,
    channels: usize,
    after: Seq<P>,
    blocks: Seq<Seq<u32>>,
) -> bool {
    &&& after.len() == before.len()
    &&& blocks.len() == before.len() + 1
    &&& forall|i: int|
        0 <= i < before.len() ==> (#[trigger] before[i]).processes(
            blocks[i],
            channels,
            after[i],
            blocks[i + 1],
        )
}

impl<P: AudioProcessor> ProcessChain<P> {
    /// No stages, and no format yet; the power is on.
    pub fn new() -> (r: Self)
        ensures
            r@ == (ChainView { stages: Seq::<P>::empty(), power: true, rate: 0, channels: 0 }),
    {
        ProcessChain { processors: Vec::new(), power: true, rate: 0, channels: 0 }
    }

    /// Adds a stage to the end. Where the format is known, the stage is made ready for it first.
    pub fn push(&mut self, processor: P)
        ensures
            final(self)@.power == old(self)@.power,
            final(self)@.rate == old(self)@.rate,
            final(self)@.channels == old(self)@.channels,
            final(self)@.stages.len() == old(self)@.stages.len() + 1,
            final(self)@.stages.drop_last() == old(self)@.stages,
            if crate::float_bits::less(0, old(self)@.rate) {
                processor.prepares(
                    old(self)@.rate,
                    old(self)@.channels,
                    final(self)@.stages.last(),
                )
            } else {
                final(self)@.stages.last() == processor
            },
    {
        let mut stage = processor;
        if less_than(0, self.rate) {
            stage.prepare(self.rate, self.channels);
        }
        self.processors.push(stage);
        assert(self@.stages.drop_last() =~= old(self)@.stages);
    }

    /// How many stages there are.
    pub fn len(&self) -> (r: usize)
        ensures
            r == self@.stages.len(),
    {
        self.processors.len()
    }

    /// Whether there are none.
    pub fn is_empty(&self) -> (r: bool)
        ensures
            r == (self@.stages.len() == 0),
    {
        self.processors.len() == 0
    }

    /// Takes a format and makes every stage ready for it.
    pub fn prepare(&mut self, rate: u32, channels: usize)
        ensures
            final(self)@.power == old(self)@.power,
            final(self)@.rate == rate,
            final(self)@.channels == channels,
            all_prepared(old(self)@.stages, rate, channels, final(self)@.stages),
    {
        self.rate = rate;
        self.channels = channels;
        let ghost before = self.processors@;
        let mut i: usize = 0;
        while i < self.processors.len()
            invariant
                i <= self.processors@.len(),
                self.processors@.len() == before.len(),
                self.rate == rate,
                self.power == old(self).power,
                self.channels == channels,
                forall|k: int|
                    0 <= k < i ==> (#[trigger] before[k]).prepares(
                        rate,
                        channels,
                        self.processors@[k],
                    ),
                forall|k: int| i <= k < before.len() ==> self.processors@[k] == #[trigger] before[k],
            decreases self.processors@.len() - i,
        {
            self.processors[i].prepare(rate, channels);
            i += 1;
        }
    }

    /// Takes the power switch, and gives new settings to every stage.
    pub fn set_params(&mut self, params: &EngineState)
        ensures
            final(self)@.power == params.power,
            final(self)@.rate == old(self)@.rate,
            final(self)@.channels == old(self)@.channels,
            all_took(old(self)@.stages, *params, final(self)@.stages),
    {
        self.power = params.power;
        let ghost before = self.processors@;
        let mut i: usize = 0;
        while i < self.processors.len()
            invariant
                i <= self.processors@.len(),
                self.processors@.len() == before.len(),
                self.rate == old(self).rate,
                self.power == params.power,
                self.channels == old(self).channels,
                forall|k: int|
                    0 <= k < i ==> (#[trigger] before[k]).takes(*params, self.processors@[k]),
                forall|k: int| i <= k < before.len() ==> self.processors@[k] == #[trigger] before[k],
            decreases self.processors@.len() - i,
        {
            self.processors[i].set_params(params);
            i += 1;
        }
    }

    /// Runs a block through every stage in place, in their order. Without power the block and the
    /// stages stay as they are.
    pub fn process(&mut self, buffer: &mut Vec<u32>, channels: usize)
        ensures
            final(self)@.power == old(self)@.power,
            final(self)@.rate == old(self)@.rate,
            final(self)@.channels == old(self)@.channels,
            !old(self)@.power ==> final(buffer)@ == old(buffer)@ && final(self)@ == old(self)@,
            old(self)@.power ==> exists|blocks: Seq<Seq<u32>>| #[trigger]
                ran_through(old(self)@.stages, channels, final(self)@.stages, blocks)
                    && blocks.first() == old(buffer)@ && blocks.last() == final(buffer)@,
    {
        if !self.power {
            return;
        }
        let ghost before = self.processors@;
        let ghost mut blocks: Seq<Seq<u32>> = seq![buffer@];
        let mut i: usize = 0;
        while i < self.processors.len()
            invariant
                i <= self.processors@.len(),
                self.processors@.len() == before.len(),
                self.rate == old(self).rate,
                self.power == old(self).power,
                self.channels == old(self).channels,
                blocks.len() == i + 1,
                blocks[0] == old(buffer)@,
                blocks[i as int] == buffer@,
                forall|k: int|
                    0 <= k < i ==> (#[trigger] before[k]).processes(
                        blocks[k],
                        channels,
                        self.processors@[k],
                        blocks[k + 1],
                    ),
                forall|k: int| i <= k < before.len() ==> self.processors@[k] == #[trigger] before[k],
            decreases self.processors@.len() - i,
        {
            self.processors[i].process(buffer, channels);
            proof {
                blocks = blocks.push(buffer@);
            }
            i += 1;
        }
        assert(ran_through(old(self)@.stages, channels, self@.stages, blocks));
        assert(blocks.first() == old(buffer)@ && blocks.last() == buffer@);
    }
}

/// A chain without stages leaves audio as it is.
pub proof fn law_an_empty_chain_changes_nothing<P: AudioProcessor>(
    before: Seq<P>,
    channels: usize,
    after: Seq<P>,
    blocks: Seq<Seq<u32>>,
)
    requires
        before.len() == 0,
        ran_through(before, channels, after, blocks),
    ensures
        after == before,
        blocks.last() == blocks.first(),
{
    assert(after =~= before);
}

} // verus!
