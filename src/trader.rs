use vstd::prelude::*;

verus! {

/// Which side of the trades a volume ranking sums.
#[derive(Clone, Copy, Debug, PartialEq, Eq, Structural)]
pub enum VolumeType {
    Base,
    Quote,
}

impl VolumeType {
    pub open spec fn spec_name(self) -> Seq<char> {
        match self {
            VolumeType::Base => seq!['B', 'a', 's', 'e'],
            VolumeType::Quote => seq!['Q', 'u', 'o', 't', 'e'],
        }
    }

    /// The label of the volume type.
    pub fn name(&self) -> (r: String)
        ensures
            r@ == self.spec_name(),
    {
        match self {
            VolumeType::Base => {
                proof {
                    reveal_strlit("Base");
                }
                String::from_str("Base")
            },
            VolumeType::Quote => {
                proof {
                    reveal_strlit("Quote");
                }
                String::from_str("Quote")
            },
        }
    }
}

} // verus!
