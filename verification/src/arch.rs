use vstd::prelude::*;
use core::cmp::Ordering;
use vstd::std_specs::cmp::PartialOrdSpec;
use crate::error::MalformedSpec;
use crate::text::text_eq;

verus! {

/// The processor architectures a target specification can name. They are
/// ordered as they are listed here.
#[allow(non_camel_case_types)]
#[derive(Clone, Copy, Debug, PartialEq, Eq, Ord, Hash, Structural)]
pub enum Architecture {
    X86,
    X86_64,
    Arm,
    Aarch64,
    Mips,
    Mips64,
    PowerPC,
    PowerPC64,
}

impl PartialOrd for Architecture {
    fn partial_cmp(&self, other: &Architecture) -> (r: Option<Ordering>) {
        let a = self.position();
        let b = other.position();
        if a < b {
            Some(Ordering::Less)
        } else if a == b {
            Some(Ordering::Equal)
        } else {
            Some(Ordering::Greater)
        }
    }
}

impl vstd::std_specs::cmp::PartialOrdSpecImpl for Architecture {
    open spec fn obeys_partial_cmp_spec() -> bool {
        true
    }

    open spec fn partial_cmp_spec(&self, other: &Architecture) -> Option<Ordering> {
        if self.ordinal() < other.ordinal() {
            Some(Ordering::Less)
        } else if self.ordinal() == other.ordinal() {
            Some(Ordering::Equal)
        } else {
            Some(Ordering::Greater)
        }
    }
}

impl Architecture {
    /// The name under which a target specification lists the architecture.
    pub open spec fn name(self) -> Seq<char> {
        match self {
            Architecture::X86 => seq!['x', '8', '6'],
            Architecture::X86_64 => seq!['x', '8', '6', '_', '6', '4'],
            Architecture::Arm => seq!['a', 'r', 'm'],
            Architecture::Aarch64 => seq!['a', 'a', 'r', 'c', 'h', '6', '4'],
            Architecture::Mips => seq!['m', 'i', 'p', 's'],
            Architecture::Mips64 => seq!['m', 'i', 'p', 's', '6', '4'],
            Architecture::PowerPC => seq!['p', 'o', 'w', 'e', 'r', 'p', 'c'],
            Architecture::PowerPC64 => seq!['p', 'o', 'w', 'e', 'r', 'p', 'c', '6', '4'],
        }
    }

    /// The architecture that goes by `name`, if there is one.
    pub open spec fn named(name: Seq<char>) -> Option<Architecture> {
        if exists|a: Architecture| a.name() == name {
            Some(choose|a: Architecture| a.name() == name)
        } else {
            None
        }
    }

    /// Position in the fixed order of the enumeration.
    pub open spec fn ordinal(self) -> nat {
        match self {
            Architecture::X86 => 0,
            Architecture::X86_64 => 1,
            Architecture::Arm => 2,
            Architecture::Aarch64 => 3,
            Architecture::Mips => 4,
            Architecture::Mips64 => 5,
            Architecture::PowerPC => 6,
            Architecture::PowerPC64 => 7,
        }
    }

    /// The position of the architecture in the fixed order.
    pub fn position(&self) -> (k: u8)
        ensures
            k == self.ordinal(),
    {
        match self {
            Architecture::X86 => 0,
            Architecture::X86_64 => 1,
            Architecture::Arm => 2,
            Architecture::Aarch64 => 3,
            Architecture::Mips => 4,
            Architecture::Mips64 => 5,
            Architecture::PowerPC => 6,
            Architecture::PowerPC64 => 7,
        }
    }

    /// The architecture at a position of the fixed order, if the position
    /// is one of the eight.
    pub fn from_ordinal(k: u8) -> (r: Option<Architecture>)
        ensures
            match r {
                Some(a) => a.ordinal() == k,
                None => k >= 8,
            },
    {
        match k {
            0 => Some(Architecture::X86),
            1 => Some(Architecture::X86_64),
            2 => Some(Architecture::Arm),
            3 => Some(Architecture::Aarch64),
            4 => Some(Architecture::Mips),
            5 => Some(Architecture::Mips64),
            6 => Some(Architecture::PowerPC),
            7 => Some(Architecture::PowerPC64),
            _ => None,
        }
    }

    /// The order is total: of two architectures one stands before the other
    /// unless they are the same, and never both.
    pub proof fn lemma_order_total(a: Architecture, b: Architecture)
        ensures
            a.ordinal() == b.ordinal() <==> a == b,
            a.partial_cmp_spec(&b) == Some(Ordering::Equal) <==> a == b,
            a.partial_cmp_spec(&b) == Some(Ordering::Less) <==> b.partial_cmp_spec(&a) == Some(
                Ordering::Greater,
            ),
    {
    }

    /// No two architectures share a name, so a name stands for at most one.
    pub proof fn lemma_names_distinct(a: Architecture, b: Architecture)
        ensures
            a.name() == b.name() ==> a == b,
            Architecture::named(a.name()) == Some(a),
    {
        Self::lemma_name_shape(a);
        Self::lemma_name_shape(b);
        if a.name() == b.name() {
            assert(a.name().len() == b.name().len());
            assert(a.name()[0] == b.name()[0]);
            assert(a.name()[1] == b.name()[1]);
        }
        assert forall|c: Architecture| c.name() == a.name() implies c == a by {
            Self::lemma_name_shape(c);
            assert(c.name().len() == a.name().len());
            assert(c.name()[0] == a.name()[0]);
            assert(c.name()[1] == a.name()[1]);
        }
    }

    /// A name is not empty and holds none of the characters of the grammar.
    pub proof fn lemma_name_shape(a: Architecture)
        ensures
            a.name().len() >= 3,
            forall|i: int|
                0 <= i < a.name().len() ==> {
                    let c = #[trigger] a.name()[i];
                    c != '+' && c != '|' && c != '[' && c != ']'
                },
    {
    }

    /// Reads an architecture name. Every other text is refused as
    /// `UnknownArchitecture`.
    pub fn new(name: &str) -> (r: Result<Architecture, MalformedSpec>)
        ensures
            r == match Architecture::named(name@) {
                Some(a) => Ok::<Architecture, MalformedSpec>(a),
                None => Err(MalformedSpec::UnknownArchitecture),
            },
    {
        let mut k: u8 = 0;
        while k < 8
            invariant
                k <= 8,
                forall|a: Architecture| a.ordinal() < k ==> a.name() != name@,
            decreases 8 - k,
        {
            if let Some(a) = Architecture::from_ordinal(k) {
                if text_eq(name, a.as_str()) {
                    proof {
                        Self::lemma_names_distinct(a, a);
                    }
                    return Ok(a);
                }
            }
            k += 1;
        }
        Err(MalformedSpec::UnknownArchitecture)
    }

    /// The name of the architecture, as `target_arch` spells it.
    pub fn as_str(&self) -> (s: &'static str)
        ensures
            s@ == self.name(),
    {
        match self {
            Architecture::X86 => {
                proof {
                    reveal_strlit("x86");
                }
                assert("x86"@ =~= Architecture::X86.name());
                "x86"
            },
            Architecture::X86_64 => {
                proof {
                    reveal_strlit("x86_64");
                }
                assert("x86_64"@ =~= Architecture::X86_64.name());
                "x86_64"
            },
            Architecture::Arm => {
                proof {
                    reveal_strlit("arm");
                }
                assert("arm"@ =~= Architecture::Arm.name());
                "arm"
            },
            Architecture::Aarch64 => {
                proof {
                    reveal_strlit("aarch64");
                }
                assert("aarch64"@ =~= Architecture::Aarch64.name());
                "aarch64"
            },
            Architecture::Mips => {
                proof {
                    reveal_strlit("mips");
                }
                assert("mips"@ =~= Architecture::Mips.name());
                "mips"
            },
            Architecture::Mips64 => {
                proof {
                    reveal_strlit("mips64");
                }
                assert("mips64"@ =~= Architecture::Mips64.name());
                "mips64"
            },
            Architecture::PowerPC => {
                proof {
                    reveal_strlit("powerpc");
                }
                assert("powerpc"@ =~= Architecture::PowerPC.name());
                "powerpc"
            },
            Architecture::PowerPC64 => {
                proof {
                    reveal_strlit("powerpc64");
                }
                assert("powerpc64"@ =~= Architecture::PowerPC64.name());
                "powerpc64"
            },
        }
    }
}

} // verus!
