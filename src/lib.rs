pub mod article_config;
pub mod date;
pub mod error;
pub mod my_text_buffer;

pub use article_config::{front_matter, initial_date, ArticleConfig};
pub use date::{parse, today, Date};
pub use error::ConfigError;
pub use my_text_buffer::MyTextBuffer;
