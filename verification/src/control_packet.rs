pub mod connect;
pub mod disconnect;
pub mod ping;
pub mod publish;
pub mod subcribe;
pub mod unsubcribe;
