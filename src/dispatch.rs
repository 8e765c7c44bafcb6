//! Static and dynamic dispatch through a small trait.
use vstd::prelude::*;

verus! {

/// Something that makes a sound.
pub trait Speak {
    /// The sound, as text.
    spec fn sound(&self) -> Seq<char>;

    fn speak(&self) -> (r: String)
        ensures
            r@ == self.sound(),
    ;
}

pub struct Dog;

impl Speak for Dog {
    open spec fn sound(&self) -> Seq<char> {
        "Woof!"@
    }

    fn speak(&self) -> (r: String) {
        "Woof!".to_owned()
    }
}

pub struct Cat;

impl Speak for Cat {
    open spec fn sound(&self) -> Seq<char> {
        "Meow!"@
    }

    fn speak(&self) -> (r: String) {
        "Meow!".to_owned()
    }
}

/// Speaks through a generic parameter.
pub fn static_dispatch<T: Speak>(animal: &T) -> (r: String)
    ensures
        r@ == animal.sound(),
{
    animal.speak()
}

/// Speaks through a trait object.
pub fn dynamic_dispatch(animal: &dyn Speak) -> (r: String)
    ensures
        r@ == animal.sound(),
{
    animal.speak()
}

} // verus!
