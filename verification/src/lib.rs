pub mod le_bytes;
pub mod vm_v1;
pub mod vm_v2;
pub mod vm_v3;
pub mod vm_v4;
pub mod vm_v5;
