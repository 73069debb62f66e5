pub mod packet;
pub mod settings;
pub mod xmodem;
pub mod xmodem_file_adapter;
