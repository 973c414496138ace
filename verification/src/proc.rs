//! Registry of the program images that the kernel carries.
use crate::bytes::same_bytes;
use vstd::prelude::*;

verus! {

/// The images, by name.
#[verifier::ext_equal]
pub struct Images {
    pub init: Seq<u8>,
    pub spawn_demo: Seq<u8>,
    pub linux_demo: Seq<u8>,
}

pub struct Programs {
    pub init: Vec<u8>,
    pub spawn_demo: Vec<u8>,
    pub linux_demo: Vec<u8>,
}

impl View for Programs {
    type V = Images;

    open spec fn view(&self) -> Images {
        Images { init: self.init@, spawn_demo: self.spawn_demo@, linux_demo: self.linux_demo@ }
    }
}

/// "init"
pub open spec fn init_name() -> Seq<u8> {
    seq![105u8, 110, 105, 116]
}

/// "spawn_demo"
pub open spec fn spawn_demo_name() -> Seq<u8> {
    seq![115u8, 112, 97, 119, 110, 95, 100, 101, 109, 111]
}

/// "linux_demo"
pub open spec fn linux_demo_name() -> Seq<u8> {
    seq![108u8, 105, 110, 117, 120, 95, 100, 101, 109, 111]
}

/// The image registered under `name`.
pub open spec fn image_named(images: Images, name: Seq<u8>) -> Option<Seq<u8>> {
    if name == init_name() {
        Some(images.init)
    } else if name == spawn_demo_name() {
        Some(images.spawn_demo)
    } else if name == linux_demo_name() {
        Some(images.linux_demo)
    } else {
        None
    }
}

/// Find a program image by name.
pub fn find_elf<'a>(programs: &'a Programs, name: &[u8]) -> (r: Option<&'a Vec<u8>>)
    ensures
        match image_named(programs@, name@) {
            None => r is None,
            Some(image) => r is Some && r->0@ == image,
        },
{
    let init: [u8; 4] = [105, 110, 105, 116];
    let spawn_demo: [u8; 10] = [115, 112, 97, 119, 110, 95, 100, 101, 109, 111];
    let linux_demo: [u8; 10] = [108, 105, 110, 117, 120, 95, 100, 101, 109, 111];
    assert(init@ =~= init_name());
    assert(spawn_demo@ =~= spawn_demo_name());
    assert(linux_demo@ =~= linux_demo_name());
    if same_bytes(name, &init) {
        Some(&programs.init)
    } else if same_bytes(name, &spawn_demo) {
        Some(&programs.spawn_demo)
    } else if same_bytes(name, &linux_demo) {
        Some(&programs.linux_demo)
    } else {
        None
    }
}

/// The three images go by the names "init", "spawn_demo" and "linux_demo", and no
/// other name has one.
pub proof fn law_images_by_name(images: Images, name: Seq<u8>)
    ensures
        name == seq![105u8, 110, 105, 116] ==> image_named(images, name) == Some(images.init),
        name == seq![115u8, 112, 97, 119, 110, 95, 100, 101, 109, 111] ==> image_named(images, name)
            == Some(images.spawn_demo),
        name == seq![108u8, 105, 110, 117, 120, 95, 100, 101, 109, 111] ==> image_named(
            images,
            name,
        ) == Some(images.linux_demo),
        image_named(images, name) is Some ==> name.len() == 4 || name.len() == 10,
{
    assert(init_name().len() == 4);
    assert(spawn_demo_name()[0] == 115 && linux_demo_name()[0] == 108);
    assert(spawn_demo_name().len() == 10 && linux_demo_name().len() == 10);
}

} // verus!
