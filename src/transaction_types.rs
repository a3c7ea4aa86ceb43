//! The SWIFT transaction type identification codes of tag `:61:`.
use vstd::prelude::*;
use crate::text::string_of;

verus! {

/// A transaction type identification code: the three letters that follow the `N` or `F` in
/// tag `:61:`.
#[derive(Debug, Clone, Copy, PartialEq, Eq, Structural)]
pub enum TransactionTypeIdentificationCode {
    BNK,
    BOE,
    BRF,
    CAR,
    CAS,
    CHG,
    CHK,
    CLR,
    CMI,
    CMN,
    CMP,
    CMS,
    CMT,
    CMZ,
    COL,
    COM,
    COR,
    CPN,
    DCR,
    DDT,
    DIS,
    DIV,
    EQA,
    EXT,
    FEX,
    INT,
    LBX,
    LDP,
    MAR,
    MAT,
    MGT,
    MSC,
    NWI,
    ODC,
    OPT,
    PCH,
    POP,
    PRN,
    REC,
    RED,
    RIG,
    RTI,
    SAL,
    SEC,
    SLE,
    STO,
    STP,
    SUB,
    SWP,
    TAX,
    TCK,
    TCM,
    TRA,
    TRF,
    TRN,
    UWC,
    VDA,
    WAR,
}

impl TransactionTypeIdentificationCode {
    /// The three letters of the code.
    pub open spec fn letters(self) -> (char, char, char) {
        match self {
            TransactionTypeIdentificationCode::BNK => ('B', 'N', 'K'),
            TransactionTypeIdentificationCode::BOE => ('B', 'O', 'E'),
            TransactionTypeIdentificationCode::BRF => ('B', 'R', 'F'),
            TransactionTypeIdentificationCode::CAR => ('C', 'A', 'R'),
            TransactionTypeIdentificationCode::CAS => ('C', 'A', 'S'),
            TransactionTypeIdentificationCode::CHG => ('C', 'H', 'G'),
            TransactionTypeIdentificationCode::CHK => ('C', 'H', 'K'),
            TransactionTypeIdentificationCode::CLR => ('C', 'L', 'R'),
            TransactionTypeIdentificationCode::CMI => ('C', 'M', 'I'),
            TransactionTypeIdentificationCode::CMN => ('C', 'M', 'N'),
            TransactionTypeIdentificationCode::CMP => ('C', 'M', 'P'),
            TransactionTypeIdentificationCode::CMS => ('C', 'M', 'S'),
            TransactionTypeIdentificationCode::CMT => ('C', 'M', 'T'),
            TransactionTypeIdentificationCode::CMZ => ('C', 'M', 'Z'),
            TransactionTypeIdentificationCode::COL => ('C', 'O', 'L'),
            TransactionTypeIdentificationCode::COM => ('C', 'O', 'M'),
            TransactionTypeIdentificationCode::COR => ('C', 'O', 'R'),
            TransactionTypeIdentificationCode::CPN => ('C', 'P', 'N'),
            TransactionTypeIdentificationCode::DCR => ('D', 'C', 'R'),
            TransactionTypeIdentificationCode::DDT => ('D', 'D', 'T'),
            TransactionTypeIdentificationCode::DIS => ('D', 'I', 'S'),
            TransactionTypeIdentificationCode::DIV => ('D', 'I', 'V'),
            TransactionTypeIdentificationCode::EQA => ('E', 'Q', 'A'),
            TransactionTypeIdentificationCode::EXT => ('E', 'X', 'T'),
            TransactionTypeIdentificationCode::FEX => ('F', 'E', 'X'),
            TransactionTypeIdentificationCode::INT => ('I', 'N', 'T'),
            TransactionTypeIdentificationCode::LBX => ('L', 'B', 'X'),
            TransactionTypeIdentificationCode::LDP => ('L', 'D', 'P'),
            TransactionTypeIdentificationCode::MAR => ('M', 'A', 'R'),
            TransactionTypeIdentificationCode::MAT => ('M', 'A', 'T'),
            TransactionTypeIdentificationCode::MGT => ('M', 'G', 'T'),
            TransactionTypeIdentificationCode::MSC => ('M', 'S', 'C'),
            TransactionTypeIdentificationCode::NWI => ('N', 'W', 'I'),
            TransactionTypeIdentificationCode::ODC => ('O', 'D', 'C'),
            TransactionTypeIdentificationCode::OPT => ('O', 'P', 'T'),
            TransactionTypeIdentificationCode::PCH => ('P', 'C', 'H'),
            TransactionTypeIdentificationCode::POP => ('P', 'O', 'P'),
            TransactionTypeIdentificationCode::PRN => ('P', 'R', 'N'),
            TransactionTypeIdentificationCode::REC => ('R', 'E', 'C'),
            TransactionTypeIdentificationCode::RED => ('R', 'E', 'D'),
            TransactionTypeIdentificationCode::RIG => ('R', 'I', 'G'),
            TransactionTypeIdentificationCode::RTI => ('R', 'T', 'I'),
            TransactionTypeIdentificationCode::SAL => ('S', 'A', 'L'),
            TransactionTypeIdentificationCode::SEC => ('S', 'E', 'C'),
            TransactionTypeIdentificationCode::SLE => ('S', 'L', 'E'),
            TransactionTypeIdentificationCode::STO => ('S', 'T', 'O'),
            TransactionTypeIdentificationCode::STP => ('S', 'T', 'P'),
            TransactionTypeIdentificationCode::SUB => ('S', 'U', 'B'),
            TransactionTypeIdentificationCode::SWP => ('S', 'W', 'P'),
            TransactionTypeIdentificationCode::TAX => ('T', 'A', 'X'),
            TransactionTypeIdentificationCode::TCK => ('T', 'C', 'K'),
            TransactionTypeIdentificationCode::TCM => ('T', 'C', 'M'),
            TransactionTypeIdentificationCode::TRA => ('T', 'R', 'A'),
            TransactionTypeIdentificationCode::TRF => ('T', 'R', 'F'),
            TransactionTypeIdentificationCode::TRN => ('T', 'R', 'N'),
            TransactionTypeIdentificationCode::UWC => ('U', 'W', 'C'),
            TransactionTypeIdentificationCode::VDA => ('V', 'D', 'A'),
            TransactionTypeIdentificationCode::WAR => ('W', 'A', 'R'),
        }
    }

    /// The code that the letters `a`, `b`, `c` write, if there is one.
    pub open spec fn of_letters(a: char, b: char, c: char) -> Option<TransactionTypeIdentificationCode> {
        if a == 'B' && b == 'N' && c == 'K' {
            Some(TransactionTypeIdentificationCode::BNK)
        } else if a == 'B' && b == 'O' && c == 'E' {
            Some(TransactionTypeIdentificationCode::BOE)
        } else if a == 'B' && b == 'R' && c == 'F' {
            Some(TransactionTypeIdentificationCode::BRF)
        } else if a == 'C' && b == 'A' && c == 'R' {
            Some(TransactionTypeIdentificationCode::CAR)
        } else if a == 'C' && b == 'A' && c == 'S' {
            Some(TransactionTypeIdentificationCode::CAS)
        } else if a == 'C' && b == 'H' && c == 'G' {
            Some(TransactionTypeIdentificationCode::CHG)
        } else if a == 'C' && b == 'H' && c == 'K' {
            Some(TransactionTypeIdentificationCode::CHK)
        } else if a == 'C' && b == 'L' && c == 'R' {
            Some(TransactionTypeIdentificationCode::CLR)
        } else if a == 'C' && b == 'M' && c == 'I' {
            Some(TransactionTypeIdentificationCode::CMI)
        } else if a == 'C' && b == 'M' && c == 'N' {
            Some(TransactionTypeIdentificationCode::CMN)
        } else if a == 'C' && b == 'M' && c == 'P' {
            Some(TransactionTypeIdentificationCode::CMP)
        } else if a == 'C' && b == 'M' && c == 'S' {
            Some(TransactionTypeIdentificationCode::CMS)
        } else if a == 'C' && b == 'M' && c == 'T' {
            Some(TransactionTypeIdentificationCode::CMT)
        } else if a == 'C' && b == 'M' && c == 'Z' {
            Some(TransactionTypeIdentificationCode::CMZ)
        } else if a == 'C' && b == 'O' && c == 'L' {
            Some(TransactionTypeIdentificationCode::COL)
        } else if a == 'C' && b == 'O' && c == 'M' {
            Some(TransactionTypeIdentificationCode::COM)
        } else if a == 'C' && b == 'O' && c == 'R' {
            Some(TransactionTypeIdentificationCode::COR)
        } else if a == 'C' && b == 'P' && c == 'N' {
            Some(TransactionTypeIdentificationCode::CPN)
        } else if a == 'D' && b == 'C' && c == 'R' {
            Some(TransactionTypeIdentificationCode::DCR)
        } else if a == 'D' && b == 'D' && c == 'T' {
            Some(TransactionTypeIdentificationCode::DDT)
        } else if a == 'D' && b == 'I' && c == 'S' {
            Some(TransactionTypeIdentificationCode::DIS)
        } else if a == 'D' && b == 'I' && c == 'V' {
            Some(TransactionTypeIdentificationCode::DIV)
        } else if a == 'E' && b == 'Q' && c == 'A' {
            Some(TransactionTypeIdentificationCode::EQA)
        } else if a == 'E' && b == 'X' && c == 'T' {
            Some(TransactionTypeIdentificationCode::EXT)
        } else if a == 'F' && b == 'E' && c == 'X' {
            Some(TransactionTypeIdentificationCode::FEX)
        } else if a == 'I' && b == 'N' && c == 'T' {
            Some(TransactionTypeIdentificationCode::INT)
        } else if a == 'L' && b == 'B' && c == 'X' {
            Some(TransactionTypeIdentificationCode::LBX)
        } else if a == 'L' && b == 'D' && c == 'P' {
            Some(TransactionTypeIdentificationCode::LDP)
        } else if a == 'M' && b == 'A' && c == 'R' {
            Some(TransactionTypeIdentificationCode::MAR)
        } else if a == 'M' && b == 'A' && c == 'T' {
            Some(TransactionTypeIdentificationCode::MAT)
        } else if a == 'M' && b == 'G' && c == 'T' {
            Some(TransactionTypeIdentificationCode::MGT)
        } else if a == 'M' && b == 'S' && c == 'C' {
            Some(TransactionTypeIdentificationCode::MSC)
        } else if a == 'N' && b == 'W' && c == 'I' {
            Some(TransactionTypeIdentificationCode::NWI)
        } else if a == 'O' && b == 'D' && c == 'C' {
            Some(TransactionTypeIdentificationCode::ODC)
        } else if a == 'O' && b == 'P' && c == 'T' {
            Some(TransactionTypeIdentificationCode::OPT)
        } else if a == 'P' && b == 'C' && c == 'H' {
            Some(TransactionTypeIdentificationCode::PCH)
        } else if a == 'P' && b == 'O' && c == 'P' {
            Some(TransactionTypeIdentificationCode::POP)
        } else if a == 'P' && b == 'R' && c == 'N' {
            Some(TransactionTypeIdentificationCode::PRN)
        } else if a == 'R' && b == 'E' && c == 'C' {
            Some(TransactionTypeIdentificationCode::REC)
        } else if a == 'R' && b == 'E' && c == 'D' {
            Some(TransactionTypeIdentificationCode::RED)
        } else if a == 'R' && b == 'I' && c == 'G' {
            Some(TransactionTypeIdentificationCode::RIG)
        } else if a == 'R' && b == 'T' && c == 'I' {
            Some(TransactionTypeIdentificationCode::RTI)
        } else if a == 'S' && b == 'A' && c == 'L' {
            Some(TransactionTypeIdentificationCode::SAL)
        } else if a == 'S' && b == 'E' && c == 'C' {
            Some(TransactionTypeIdentificationCode::SEC)
        } else if a == 'S' && b == 'L' && c == 'E' {
            Some(TransactionTypeIdentificationCode::SLE)
        } else if a == 'S' && b == 'T' && c == 'O' {
            Some(TransactionTypeIdentificationCode::STO)
        } else if a == 'S' && b == 'T' && c == 'P' {
            Some(TransactionTypeIdentificationCode::STP)
        } else if a == 'S' && b == 'U' && c == 'B' {
            Some(TransactionTypeIdentificationCode::SUB)
        } else if a == 'S' && b == 'W' && c == 'P' {
            Some(TransactionTypeIdentificationCode::SWP)
        } else if a == 'T' && b == 'A' && c == 'X' {
            Some(TransactionTypeIdentificationCode::TAX)
        } else if a == 'T' && b == 'C' && c == 'K' {
            Some(TransactionTypeIdentificationCode::TCK)
        } else if a == 'T' && b == 'C' && c == 'M' {
            Some(TransactionTypeIdentificationCode::TCM)
        } else if a == 'T' && b == 'R' && c == 'A' {
            Some(TransactionTypeIdentificationCode::TRA)
        } else if a == 'T' && b == 'R' && c == 'F' {
            Some(TransactionTypeIdentificationCode::TRF)
        } else if a == 'T' && b == 'R' && c == 'N' {
            Some(TransactionTypeIdentificationCode::TRN)
        } else if a == 'U' && b == 'W' && c == 'C' {
            Some(TransactionTypeIdentificationCode::UWC)
        } else if a == 'V' && b == 'D' && c == 'A' {
            Some(TransactionTypeIdentificationCode::VDA)
        } else if a == 'W' && b == 'A' && c == 'R' {
            Some(TransactionTypeIdentificationCode::WAR)
        } else {
            None
        }
    }

    /// The code written by the letters `a`, `b`, `c`, if there is one.
    pub fn from_letters(a: char, b: char, c: char) -> (r: Option<TransactionTypeIdentificationCode>)
        ensures
            r == Self::of_letters(a, b, c),
            match r {
                Some(t) => t.letters() == (a, b, c),
                None => forall|t: TransactionTypeIdentificationCode| #[trigger] t.letters() != (a, b, c),
            },
    {
        if a == 'B' && b == 'N' && c == 'K' {
            Some(TransactionTypeIdentificationCode::BNK)
        } else if a == 'B' && b == 'O' && c == 'E' {
            Some(TransactionTypeIdentificationCode::BOE)
        } else if a == 'B' && b == 'R' && c == 'F' {
            Some(TransactionTypeIdentificationCode::BRF)
        } else if a == 'C' && b == 'A' && c == 'R' {
            Some(TransactionTypeIdentificationCode::CAR)
        } else if a == 'C' && b == 'A' && c == 'S' {
            Some(TransactionTypeIdentificationCode::CAS)
        } else if a == 'C' && b == 'H' && c == 'G' {
            Some(TransactionTypeIdentificationCode::CHG)
        } else if a == 'C' && b == 'H' && c == 'K' {
            Some(TransactionTypeIdentificationCode::CHK)
        } else if a == 'C' && b == 'L' && c == 'R' {
            Some(TransactionTypeIdentificationCode::CLR)
        } else if a == 'C' && b == 'M' && c == 'I' {
            Some(TransactionTypeIdentificationCode::CMI)
        } else if a == 'C' && b == 'M' && c == 'N' {
            Some(TransactionTypeIdentificationCode::CMN)
        } else if a == 'C' && b == 'M' && c == 'P' {
            Some(TransactionTypeIdentificationCode::CMP)
        } else if a == 'C' && b == 'M' && c == 'S' {
            Some(TransactionTypeIdentificationCode::CMS)
        } else if a == 'C' && b == 'M' && c == 'T' {
            Some(TransactionTypeIdentificationCode::CMT)
        } else if a == 'C' && b == 'M' && c == 'Z' {
            Some(TransactionTypeIdentificationCode::CMZ)
        } else if a == 'C' && b == 'O' && c == 'L' {
            Some(TransactionTypeIdentificationCode::COL)
        } else if a == 'C' && b == 'O' && c == 'M' {
            Some(TransactionTypeIdentificationCode::COM)
        } else if a == 'C' && b == 'O' && c == 'R' {
            Some(TransactionTypeIdentificationCode::COR)
        } else if a == 'C' && b == 'P' && c == 'N' {
            Some(TransactionTypeIdentificationCode::CPN)
        } else if a == 'D' && b == 'C' && c == 'R' {
            Some(TransactionTypeIdentificationCode::DCR)
        } else if a == 'D' && b == 'D' && c == 'T' {
            Some(TransactionTypeIdentificationCode::DDT)
        } else if a == 'D' && b == 'I' && c == 'S' {
            Some(TransactionTypeIdentificationCode::DIS)
        } else if a == 'D' && b == 'I' && c == 'V' {
            Some(TransactionTypeIdentificationCode::DIV)
        } else if a == 'E' && b == 'Q' && c == 'A' {
            Some(TransactionTypeIdentificationCode::EQA)
        } else if a == 'E' && b == 'X' && c == 'T' {
            Some(TransactionTypeIdentificationCode::EXT)
        } else if a == 'F' && b == 'E' && c == 'X' {
            Some(TransactionTypeIdentificationCode::FEX)
        } else if a == 'I' && b == 'N' && c == 'T' {
            Some(TransactionTypeIdentificationCode::INT)
        } else if a == 'L' && b == 'B' && c == 'X' {
            Some(TransactionTypeIdentificationCode::LBX)
        } else if a == 'L' && b == 'D' && c == 'P' {
            Some(TransactionTypeIdentificationCode::LDP)
        } else if a == 'M' && b == 'A' && c == 'R' {
            Some(TransactionTypeIdentificationCode::MAR)
        } else if a == 'M' && b == 'A' && c == 'T' {
            Some(TransactionTypeIdentificationCode::MAT)
        } else if a == 'M' && b == 'G' && c == 'T' {
            Some(TransactionTypeIdentificationCode::MGT)
        } else if a == 'M' && b == 'S' && c == 'C' {
            Some(TransactionTypeIdentificationCode::MSC)
        } else if a == 'N' && b == 'W' && c == 'I' {
            Some(TransactionTypeIdentificationCode::NWI)
        } else if a == 'O' && b == 'D' && c == 'C' {
            Some(TransactionTypeIdentificationCode::ODC)
        } else if a == 'O' && b == 'P' && c == 'T' {
            Some(TransactionTypeIdentificationCode::OPT)
        } else if a == 'P' && b == 'C' && c == 'H' {
            Some(TransactionTypeIdentificationCode::PCH)
        } else if a == 'P' && b == 'O' && c == 'P' {
            Some(TransactionTypeIdentificationCode::POP)
        } else if a == 'P' && b == 'R' && c == 'N' {
            Some(TransactionTypeIdentificationCode::PRN)
        } else if a == 'R' && b == 'E' && c == 'C' {
            Some(TransactionTypeIdentificationCode::REC)
        } else if a == 'R' && b == 'E' && c == 'D' {
            Some(TransactionTypeIdentificationCode::RED)
        } else if a == 'R' && b == 'I' && c == 'G' {
            Some(TransactionTypeIdentificationCode::RIG)
        } else if a == 'R' && b == 'T' && c == 'I' {
            Some(TransactionTypeIdentificationCode::RTI)
        } else if a == 'S' && b == 'A' && c == 'L' {
            Some(TransactionTypeIdentificationCode::SAL)
        } else if a == 'S' && b == 'E' && c == 'C' {
            Some(TransactionTypeIdentificationCode::SEC)
        } else if a == 'S' && b == 'L' && c == 'E' {
            Some(TransactionTypeIdentificationCode::SLE)
        } else if a == 'S' && b == 'T' && c == 'O' {
            Some(TransactionTypeIdentificationCode::STO)
        } else if a == 'S' && b == 'T' && c == 'P' {
            Some(TransactionTypeIdentificationCode::STP)
        } else if a == 'S' && b == 'U' && c == 'B' {
            Some(TransactionTypeIdentificationCode::SUB)
        } else if a == 'S' && b == 'W' && c == 'P' {
            Some(TransactionTypeIdentificationCode::SWP)
        } else if a == 'T' && b == 'A' && c == 'X' {
            Some(TransactionTypeIdentificationCode::TAX)
        } else if a == 'T' && b == 'C' && c == 'K' {
            Some(TransactionTypeIdentificationCode::TCK)
        } else if a == 'T' && b == 'C' && c == 'M' {
            Some(TransactionTypeIdentificationCode::TCM)
        } else if a == 'T' && b == 'R' && c == 'A' {
            Some(TransactionTypeIdentificationCode::TRA)
        } else if a == 'T' && b == 'R' && c == 'F' {
            Some(TransactionTypeIdentificationCode::TRF)
        } else if a == 'T' && b == 'R' && c == 'N' {
            Some(TransactionTypeIdentificationCode::TRN)
        } else if a == 'U' && b == 'W' && c == 'C' {
            Some(TransactionTypeIdentificationCode::UWC)
        } else if a == 'V' && b == 'D' && c == 'A' {
            Some(TransactionTypeIdentificationCode::VDA)
        } else if a == 'W' && b == 'A' && c == 'R' {
            Some(TransactionTypeIdentificationCode::WAR)
        } else {
            None
        }
    }

    /// The three letters of the code.
    pub fn code(&self) -> (r: String)
        ensures
            r@ == seq![self.letters().0, self.letters().1, self.letters().2],
    {
        let (a, b, c) = self.letters_exec();
        let v = vec![a, b, c];
        string_of(&v)
    }

    fn letters_exec(&self) -> (r: (char, char, char))
        ensures
            r == self.letters(),
    {
        match self {
            TransactionTypeIdentificationCode::BNK => ('B', 'N', 'K'),
            TransactionTypeIdentificationCode::BOE => ('B', 'O', 'E'),
            TransactionTypeIdentificationCode::BRF => ('B', 'R', 'F'),
            TransactionTypeIdentificationCode::CAR => ('C', 'A', 'R'),
            TransactionTypeIdentificationCode::CAS => ('C', 'A', 'S'),
            TransactionTypeIdentificationCode::CHG => ('C', 'H', 'G'),
            TransactionTypeIdentificationCode::CHK => ('C', 'H', 'K'),
            TransactionTypeIdentificationCode::CLR => ('C', 'L', 'R'),
            TransactionTypeIdentificationCode::CMI => ('C', 'M', 'I'),
            TransactionTypeIdentificationCode::CMN => ('C', 'M', 'N'),
            TransactionTypeIdentificationCode::CMP => ('C', 'M', 'P'),
            TransactionTypeIdentificationCode::CMS => ('C', 'M', 'S'),
            TransactionTypeIdentificationCode::CMT => ('C', 'M', 'T'),
            TransactionTypeIdentificationCode::CMZ => ('C', 'M', 'Z'),
            TransactionTypeIdentificationCode::COL => ('C', 'O', 'L'),
            TransactionTypeIdentificationCode::COM => ('C', 'O', 'M'),
            TransactionTypeIdentificationCode::COR => ('C', 'O', 'R'),
            TransactionTypeIdentificationCode::CPN => ('C', 'P', 'N'),
            TransactionTypeIdentificationCode::DCR => ('D', 'C', 'R'),
            TransactionTypeIdentificationCode::DDT => ('D', 'D', 'T'),
            TransactionTypeIdentificationCode::DIS => ('D', 'I', 'S'),
            TransactionTypeIdentificationCode::DIV => ('D', 'I', 'V'),
            TransactionTypeIdentificationCode::EQA => ('E', 'Q', 'A'),
            TransactionTypeIdentificationCode::EXT => ('E', 'X', 'T'),
            TransactionTypeIdentificationCode::FEX => ('F', 'E', 'X'),
            TransactionTypeIdentificationCode::INT => ('I', 'N', 'T'),
            TransactionTypeIdentificationCode::LBX => ('L', 'B', 'X'),
            TransactionTypeIdentificationCode::LDP => ('L', 'D', 'P'),
            TransactionTypeIdentificationCode::MAR => ('M', 'A', 'R'),
            TransactionTypeIdentificationCode::MAT => ('M', 'A', 'T'),
            TransactionTypeIdentificationCode::MGT => ('M', 'G', 'T'),
            TransactionTypeIdentificationCode::MSC => ('M', 'S', 'C'),
            TransactionTypeIdentificationCode::NWI => ('N', 'W', 'I'),
            TransactionTypeIdentificationCode::ODC => ('O', 'D', 'C'),
            TransactionTypeIdentificationCode::OPT => ('O', 'P', 'T'),
            TransactionTypeIdentificationCode::PCH => ('P', 'C', 'H'),
            TransactionTypeIdentificationCode::POP => ('P', 'O', 'P'),
            TransactionTypeIdentificationCode::PRN => ('P', 'R', 'N'),
            TransactionTypeIdentificationCode::REC => ('R', 'E', 'C'),
            TransactionTypeIdentificationCode::RED => ('R', 'E', 'D'),
            TransactionTypeIdentificationCode::RIG => ('R', 'I', 'G'),
            TransactionTypeIdentificationCode::RTI => ('R', 'T', 'I'),
            TransactionTypeIdentificationCode::SAL => ('S', 'A', 'L'),
            TransactionTypeIdentificationCode::SEC => ('S', 'E', 'C'),
            TransactionTypeIdentificationCode::SLE => ('S', 'L', 'E'),
            TransactionTypeIdentificationCode::STO => ('S', 'T', 'O'),
            TransactionTypeIdentificationCode::STP => ('S', 'T', 'P'),
            TransactionTypeIdentificationCode::SUB => ('S', 'U', 'B'),
            TransactionTypeIdentificationCode::SWP => ('S', 'W', 'P'),
            TransactionTypeIdentificationCode::TAX => ('T', 'A', 'X'),
            TransactionTypeIdentificationCode::TCK => ('T', 'C', 'K'),
            TransactionTypeIdentificationCode::TCM => ('T', 'C', 'M'),
            TransactionTypeIdentificationCode::TRA => ('T', 'R', 'A'),
            TransactionTypeIdentificationCode::TRF => ('T', 'R', 'F'),
            TransactionTypeIdentificationCode::TRN => ('T', 'R', 'N'),
            TransactionTypeIdentificationCode::UWC => ('U', 'W', 'C'),
            TransactionTypeIdentificationCode::VDA => ('V', 'D', 'A'),
            TransactionTypeIdentificationCode::WAR => ('W', 'A', 'R'),
        }
    }
}

} // verus!
