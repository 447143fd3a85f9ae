//! Page permission flags. The model keeps exactly the four bits the kernel
//! reasons about: present, writable, user-accessible and no-execute.

use vstd::prelude::*;

verus! {

/// Permissions of one mapped page.
#[derive(Clone, Copy, Debug, PartialEq, Eq, Structural)]
pub struct PageTableFlags {
    pub present: bool,
    pub writable: bool,
    pub user_accessible: bool,
    pub no_execute: bool,
}

impl PageTableFlags {
    /// A present kernel page with no further rights.
    pub fn present_only() -> (r: PageTableFlags)
        ensures
            r == (PageTableFlags {
                present: true,
                writable: false,
                user_accessible: false,
                no_execute: false,
            }),
    {
        PageTableFlags { present: true, writable: false, user_accessible: false, no_execute: false }
    }

    /// PRESENT | WRITABLE, the flags of kernel heap pages.
    pub fn kernel_data() -> (r: PageTableFlags)
        ensures
            r == (PageTableFlags {
                present: true,
                writable: true,
                user_accessible: false,
                no_execute: false,
            }),
    {
        PageTableFlags { present: true, writable: true, user_accessible: false, no_execute: false }
    }

    /// PRESENT | WRITABLE | USER_ACCESSIBLE, the flags of user stack pages.
    pub fn user_data() -> (r: PageTableFlags)
        ensures
            r == (PageTableFlags {
                present: true,
                writable: true,
                user_accessible: true,
                no_execute: false,
            }),
    {
        PageTableFlags { present: true, writable: true, user_accessible: true, no_execute: false }
    }

    /// Bitwise OR of two flag sets.
    pub open spec fn spec_union(self, other: PageTableFlags) -> PageTableFlags {
        PageTableFlags {
            present: self.present || other.present,
            writable: self.writable || other.writable,
            user_accessible: self.user_accessible || other.user_accessible,
            no_execute: self.no_execute || other.no_execute,
        }
    }

    /// Bitwise OR of two flag sets.
    pub fn union(self, other: PageTableFlags) -> (r: PageTableFlags)
        ensures
            r == self.spec_union(other),
    {
        PageTableFlags {
            present: self.present || other.present,
            writable: self.writable || other.writable,
            user_accessible: self.user_accessible || other.user_accessible,
            no_execute: self.no_execute || other.no_execute,
        }
    }

    /// The same flags with WRITABLE set; the ELF loader maps every page
    /// writable while it copies segment bytes in.
    pub fn with_writable(self) -> (r: PageTableFlags)
        ensures
            r == (PageTableFlags { writable: true, ..self }),
    {
        PageTableFlags { writable: true, ..self }
    }
}

} // verus!
