//! Device drivers: the USTAR ramdisk, the IDE controller's logic and
//! transfer steps, the NVMe driver's decisions and the RTL8139 network
//! card's bookkeeping.
pub mod ide;
pub mod ide_session;
pub mod nvme;
pub mod rtl8139;
pub mod ustar;
