//! The run configuration aggregate: a duration, a repeat frequency, an
//! ordered list of operations, and the throughput cap, with a default
//! instance and a one-line textual description.

use vstd::prelude::*;
use vstd::string::StringExecFns;

use crate::speed::spec_format;
use crate::speed::Speed;
use crate::text::dec_seq;
use crate::text::dec_string;

verus! {

/// The kind of activity a benchmark run performs.
#[derive(Debug, Clone, Copy, PartialEq, Eq, Structural)]
pub enum Operation {
    Read,
    Write,
}

/// The tag's text.
pub open spec fn spec_op_text(op: Operation) -> Seq<char> {
    match op {
        Operation::Read => "Read"@,
        Operation::Write => "Write"@,
    }
}

impl Operation {
    /// The tag's text: `Read` or `Write`.
    pub fn format(&self) -> (r: String)
        ensures
            r@ == spec_op_text(*self),
    {
        match self {
            Operation::Read => String::from_str("Read"),
            Operation::Write => String::from_str("Write"),
        }
    }
}

/// The run specification. Once built it is a plain immutable value; the
/// operations are kept in order and may repeat.
#[derive(Debug, Clone)]
pub struct Config {
    /// The run's total length, in whole seconds.
    pub duration: u64,
    /// How often the run repeats, in whole seconds.
    pub frequency: u64,
    /// What the run does, in display order; duplicates are permitted.
    pub operations: Vec<Operation>,
    /// The throughput cap applied to the operations.
    pub speed: Speed,
}

/// The operations' texts joined by `:`, in sequence order.
pub open spec fn spec_ops_join(ops: Seq<Operation>) -> Seq<char>
    decreases ops.len(),
{
    if ops.len() == 0 {
        Seq::empty()
    } else if ops.len() == 1 {
        spec_op_text(ops[0])
    } else {
        spec_ops_join(ops.drop_last()) + seq![':'] + spec_op_text(ops.last())
    }
}

/// The aggregate's one-line description.
pub open spec fn spec_config_text(c: Config) -> Seq<char> {
    "Config {Duration: "@ + dec_seq(c.duration as nat) + "sec, Frequency: "@ + dec_seq(
        c.frequency as nat,
    ) + "sec, Operations: "@ + spec_ops_join(c.operations@) + ", Speed: "@ + spec_format(c.speed)
        + "}"@
}

impl Default for Config {
    /// A ten-minute run repeated every half hour, reading and writing,
    /// with no throughput cap.
    fn default() -> (c: Config)
        ensures
            c.duration == 600,
            c.frequency == 1800,
            c.operations@ == seq![Operation::Read, Operation::Write],
            c.speed == Speed::PassThrough,
    {
        let mut operations: Vec<Operation> = Vec::new();
        operations.push(Operation::Read);
        operations.push(Operation::Write);
        proof {
            assert(operations@ =~= seq![Operation::Read, Operation::Write]);
        }
        Config { duration: 600, frequency: 1800, operations, speed: Speed::PassThrough }
    }
}

impl Config {
    /// Describes the whole configuration on one line: the duration and
    /// frequency in whole seconds, the operations joined by `:` in order,
    /// and the speed's formatted text.
    #[verifier::loop_isolation(false)]
    pub fn format(&self) -> (r: String)
        ensures
            r@ == spec_config_text(*self),
    {
        let mut out = String::from_str("Config {Duration: ");
        out.append(dec_string(self.duration).as_str());
        out.append("sec, Frequency: ");
        out.append(dec_string(self.frequency).as_str());
        out.append("sec, Operations: ");
        let ghost head: Seq<char> = out@;
        let mut i: usize = 0;
        while i < self.operations.len()
            invariant
                i <= self.operations@.len(),
                out@ == head + spec_ops_join(self.operations@.take(i as int)),
            decreases self.operations@.len() - i,
        {
            if i > 0 {
                out.append(":");
                proof {
                    reveal_strlit(":");
                }
            }
            let op_text = self.operations[i].format();
            out.append(op_text.as_str());
            proof {
                let ops = self.operations@;
                assert(ops.take(i + 1).drop_last() =~= ops.take(i as int));
                assert(ops.take(i + 1).last() == ops[i as int]);
                if i == 0 {
                    assert(out@ =~= head + spec_ops_join(ops.take(i + 1)));
                } else {
                    assert(":"@ =~= seq![':']);
                    assert(out@ =~= head + spec_ops_join(ops.take(i + 1)));
                }
            }
            i += 1;
        }
        proof {
            assert(self.operations@.take(self.operations@.len() as int) =~= self.operations@);
        }
        out.append(", Speed: ");
        let speed_text = self.speed.format();
        out.append(speed_text.as_str());
        out.append("}");
        proof {
            assert(out@ =~= spec_config_text(*self));
        }
        out
    }
}

} // verus!
