//! The collision file (`.kcl`): the flags that every collision triangle carries.
pub mod flags;
