pub mod grammar;
pub mod scanner;
pub mod theorems;
pub mod token;

pub use grammar::ScanError;
pub use scanner::Scanner;
pub use token::{keyword, Literal, Token, TokenType};
