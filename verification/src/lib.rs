//! Verified core of an RTL-SDR receiver that demodulates a transmitter's
//! signal: the integer front end that turns raw interleaved I/Q bytes into decimated complex
//! samples, the delay line of the streaming band-pass filter, the decision
//! logic of the receiving thread, and the text format of the sample log.
pub mod complex;
pub mod debug_logging;
pub mod delay_line;
pub mod receiver;
pub mod samples;
pub mod shutdown;
