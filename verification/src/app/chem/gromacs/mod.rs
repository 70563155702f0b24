pub mod gmx_command;
